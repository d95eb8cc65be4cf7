use execution_engine::address::{AccessRights, Addr, Key, URef};
use execution_engine::engine::{
    commit_block, execute_block, run, AddressingError, ExecContext, ExecutionError, Op, SessionDeploy,
};
use execution_engine::store::{GlobalStore, Root, TransformSet};
use execution_engine::transform::{Transform, Value};

const INITIAL_GENESIS_AMOUNT: u128 = 100_000_000_000;
const TRANSFER_1_AMOUNT: u128 = 1000;
const TRANSFER_2_AMOUNT: u128 = 750;

fn mint() -> Addr {
    Addr::new(0, 99)
}

fn purse(n: u128, rights: AccessRights) -> URef {
    URef { addr: Addr::new(n, n), rights }
}

fn balance(store: &GlobalStore, root: Root, p: &URef) -> Option<Value> {
    store.read(root, &Key::local(mint(), p.addr))
}

/// A store whose genesis gives the purse `genesis_purse` the balance `amount`.
fn genesis(genesis_purse: &URef, amount: u128) -> (GlobalStore, Root) {
    let (mut store, empty) = GlobalStore::new();
    let mut ts = TransformSet::new();
    ts.record(Key::local(mint(), genesis_purse.addr), Transform::Write(Value::U128(amount)));
    let root = store.commit(empty, &ts).unwrap();
    (store, root)
}

fn transfer(
    store: &GlobalStore,
    root: Root,
    authority: &Vec<URef>,
    source: URef,
    target: URef,
    amount: u128,
) -> Result<TransformSet, ExecutionError> {
    let ctx = ExecContext { store, root, authority, mint: mint(), deploy: 1 };
    run(&ctx, &vec![Op::Transfer { source, target, amount }], 10)
}

#[test]
fn transfer_from_genesis_purse_records_write_and_add() {
    let g = purse(6, AccessRights::read_add_write());
    let a1 = purse(1, AccessRights::add_only());
    let (store, root) = genesis(&g, INITIAL_GENESIS_AMOUNT);
    assert_eq!(balance(&store, root, &g), Some(Value::U128(INITIAL_GENESIS_AMOUNT)));
    let ts = transfer(&store, root, &vec![g, a1], g, a1, TRANSFER_1_AMOUNT).unwrap();
    assert_eq!(
        ts.get(&Key::local(mint(), g.addr)),
        Some(Transform::Write(Value::U128(INITIAL_GENESIS_AMOUNT - TRANSFER_1_AMOUNT)))
    );
    assert_eq!(ts.get(&Key::local(mint(), a1.addr)), Some(Transform::AddU128(TRANSFER_1_AMOUNT)));
}

#[test]
fn transfer_between_two_accounts() {
    let g = purse(6, AccessRights::read_add_write());
    let a1 = purse(1, AccessRights::read_add_write());
    let a2 = purse(2, AccessRights::add_only());
    let (mut store, root) = genesis(&g, INITIAL_GENESIS_AMOUNT);
    let ts1 = transfer(&store, root, &vec![g, a1], g, a1, TRANSFER_1_AMOUNT).unwrap();
    let r1 = commit_block(&mut store, root, &vec![Ok(ts1)]).unwrap();
    let ts2 = transfer(&store, r1, &vec![a1, a2], a1, a2, TRANSFER_2_AMOUNT).unwrap();
    assert_eq!(
        ts2.get(&Key::local(mint(), a1.addr)),
        Some(Transform::Write(Value::U128(TRANSFER_1_AMOUNT - TRANSFER_2_AMOUNT)))
    );
    assert_eq!(ts2.get(&Key::local(mint(), a2.addr)), Some(Transform::AddU128(TRANSFER_2_AMOUNT)));
    let r2 = commit_block(&mut store, r1, &vec![Ok(ts2)]).unwrap();
    assert_eq!(balance(&store, r2, &a1), Some(Value::U128(TRANSFER_1_AMOUNT - TRANSFER_2_AMOUNT)));
    assert_eq!(balance(&store, r2, &a2), Some(Value::U128(TRANSFER_2_AMOUNT)));
}

#[test]
fn transfer_back_to_existing_purse() {
    let g = purse(6, AccessRights::read_add_write());
    let a1 = purse(1, AccessRights::read_add_write());
    let a2 = purse(2, AccessRights::read_add_write());
    let (mut store, root) = genesis(&g, INITIAL_GENESIS_AMOUNT);
    let ts1 = transfer(&store, root, &vec![g, a1], g, a1, TRANSFER_1_AMOUNT).unwrap();
    let r1 = commit_block(&mut store, root, &vec![Ok(ts1)]).unwrap();
    assert_eq!(balance(&store, r1, &a1), Some(Value::U128(TRANSFER_1_AMOUNT)));
    let ts2 = transfer(&store, r1, &vec![a1, a2], a1, a2, TRANSFER_2_AMOUNT).unwrap();
    let r2 = commit_block(&mut store, r1, &vec![Ok(ts2)]).unwrap();
    let ts3 = transfer(&store, r2, &vec![a2, a1], a2, a1, TRANSFER_2_AMOUNT).unwrap();
    let r3 = commit_block(&mut store, r2, &vec![Ok(ts3)]).unwrap();
    assert_eq!(balance(&store, r3, &a1), Some(Value::U128(TRANSFER_1_AMOUNT)));
    assert_eq!(balance(&store, r3, &a2), Some(Value::U128(0)));
    assert_eq!(
        balance(&store, r3, &g),
        Some(Value::U128(INITIAL_GENESIS_AMOUNT - TRANSFER_1_AMOUNT))
    );
}

#[test]
fn overdraft_fails_and_commits_nothing() {
    let g = purse(6, AccessRights::read_add_write());
    let a1 = purse(1, AccessRights::read_add_write());
    let a2 = purse(2, AccessRights::add_only());
    let (mut store, root) = genesis(&g, INITIAL_GENESIS_AMOUNT);
    let ts1 = transfer(&store, root, &vec![g, a1], g, a1, TRANSFER_1_AMOUNT).unwrap();
    let r1 = commit_block(&mut store, root, &vec![Ok(ts1)]).unwrap();
    let res = transfer(&store, r1, &vec![a1, a2], a1, a2, TRANSFER_1_AMOUNT + 1);
    assert!(matches!(res, Err(ExecutionError::InsufficientFunds)));
    let r2 = commit_block(&mut store, r1, &vec![res]).unwrap();
    assert_eq!(balance(&store, r2, &a1), Some(Value::U128(TRANSFER_1_AMOUNT)));
    assert_eq!(balance(&store, r2, &a2), None);
}

#[test]
fn fresh_uref_purse_receives_transfer() {
    let g = purse(6, AccessRights::read_add_write());
    let (mut store, root) = genesis(&g, INITIAL_GENESIS_AMOUNT);
    let deploy: u128 = 42;
    let ctx = ExecContext { store: &store, root, authority: &vec![g], mint: mint(), deploy };
    // the first URef the deploy allocates sits at (deploy, 0)
    let new_purse = URef { addr: Addr::new(deploy, 0), rights: AccessRights::add_only() };
    let ops = vec![
        Op::NewURef(Value::Unit),
        Op::Transfer { source: g, target: new_purse, amount: TRANSFER_1_AMOUNT },
    ];
    let ts = run(&ctx, &ops, 10).unwrap();
    // without the allocation the same URef is forged
    let forged = run(&ctx, &vec![ops[1]], 10);
    assert!(matches!(forged, Err(ExecutionError::Addressing(_))));
    let r1 = commit_block(&mut store, root, &vec![Ok(ts)]).unwrap();
    assert_eq!(balance(&store, r1, &new_purse), Some(Value::U128(TRANSFER_1_AMOUNT)));
    assert_eq!(store.read(r1, &Key::URef(new_purse).normalize()), Some(Value::Unit));
}

/// Genesis credits A with 1000; A sends 300 to a new account B; a second deploy asking for
/// one more than A has left fails, and A keeps 700.
#[test]
fn end_to_end_transfer_scenario() {
    let a = purse(10, AccessRights::read_add_write());
    let b = purse(11, AccessRights::add_only());
    let (mut store, root) = genesis(&a, 1000);
    let ts1 = transfer(&store, root, &vec![a, b], a, b, 300).unwrap();
    let r1 = commit_block(&mut store, root, &vec![Ok(ts1)]).unwrap();
    assert_eq!(balance(&store, r1, &a), Some(Value::U128(700)));
    assert_eq!(balance(&store, r1, &b), Some(Value::U128(300)));
    let res = transfer(&store, r1, &vec![a, b], a, b, 701);
    assert_eq!(res.as_ref().err(), Some(&ExecutionError::InsufficientFunds));
    let r2 = commit_block(&mut store, r1, &vec![res]).unwrap();
    assert_eq!(balance(&store, r2, &a), Some(Value::U128(700)));
    assert_eq!(balance(&store, r2, &b), Some(Value::U128(300)));
}

#[test]
fn block_of_deploys_runs_against_one_snapshot() {
    let a = purse(10, AccessRights::read_add_write());
    let b = purse(11, AccessRights::add_only());
    let c = URef { addr: Addr::new(12, 12), rights: AccessRights::read_add_write() };
    let (mut store, root) = genesis(&a, 1000);
    let deploys = vec![
        SessionDeploy {
            id: 1,
            authority: vec![a, b],
            ops: vec![Op::Transfer { source: a, target: b, amount: 300 }],
            gas_limit: 10,
        },
        SessionDeploy { id: 2, authority: vec![c], ops: vec![Op::AddU64(c, 5), Op::Revert(1)], gas_limit: 10 },
        SessionDeploy { id: 3, authority: vec![c], ops: vec![Op::AddU64(c, 7)], gas_limit: 10 },
    ];
    let (results, new_root) = execute_block(&mut store, root, mint(), &deploys);
    assert!(results[0].is_ok());
    assert_eq!(results[1].as_ref().err(), Some(&ExecutionError::Revert(1)));
    assert!(results[2].is_ok());
    let r1 = new_root.unwrap();
    assert_eq!(balance(&store, r1, &a), Some(Value::U128(700)));
    assert_eq!(balance(&store, r1, &b), Some(Value::U128(300)));
    assert_eq!(store.read(r1, &Key::URef(c).normalize()), Some(Value::U64(7)));
    let second = vec![SessionDeploy {
        id: 4,
        authority: vec![a, b],
        ops: vec![Op::Transfer { source: a, target: b, amount: 701 }],
        gas_limit: 10,
    }];
    let (results2, root2) = execute_block(&mut store, r1, mint(), &second);
    assert_eq!(results2[0].as_ref().err(), Some(&ExecutionError::InsufficientFunds));
    let r2 = root2.unwrap();
    assert_eq!(balance(&store, r2, &a), Some(Value::U128(700)));
    assert_eq!(balance(&store, root, &a), Some(Value::U128(1000)));
}

#[test]
fn fresh_uref_address_is_never_reused() {
    let g = purse(6, AccessRights::read_add_write());
    let (mut store, root) = genesis(&g, INITIAL_GENESIS_AMOUNT);
    let first = vec![SessionDeploy { id: 9, authority: vec![], ops: vec![Op::NewURef(Value::U64(1))], gas_limit: 5 }];
    let (results, r1) = execute_block(&mut store, root, mint(), &first);
    assert!(results[0].is_ok());
    let r1 = r1.unwrap();
    let slot = Key::URef(URef { addr: Addr::new(9, 0), rights: AccessRights::none() });
    assert_eq!(store.read(r1, &slot), Some(Value::U64(1)));
    // a later deploy with the same identity cannot take the same address again
    let again = vec![SessionDeploy {
        id: 9,
        authority: vec![],
        ops: vec![Op::NewURef(Value::U64(2))],
        gas_limit: 5,
    }];
    let (results2, r2) = execute_block(&mut store, r1, mint(), &again);
    assert_eq!(
        results2[0].as_ref().err(),
        Some(&ExecutionError::Addressing(AddressingError::AddressInUse))
    );
    assert_eq!(store.read(r2.unwrap(), &slot), Some(Value::U64(1)));
    // a read through a URef that carries rights reaches the same slot
    let with_rights = Key::URef(URef { addr: Addr::new(9, 0), rights: AccessRights::read_only() });
    assert_eq!(store.read(r1, &with_rights), Some(Value::U64(1)));
}
