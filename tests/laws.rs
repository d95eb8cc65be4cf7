use execution_engine::address::{AccessRights, Addr, Key, URef};
use execution_engine::engine::{
    commit_block, run, AddressingError, ExecContext, ExecutionError, Op,
};
use execution_engine::store::{GlobalStore, Root, StoreError, TransformSet};
use execution_engine::transform::{Transform, TransformError, Value};

fn uref(n: u128, rights: AccessRights) -> URef {
    URef { addr: Addr::new(0, n), rights }
}

fn slot(u: &URef) -> Key {
    Key::URef(*u).normalize()
}

fn run_ops(store: &GlobalStore, root: Root, authority: &Vec<URef>, ops: Vec<Op>) -> Result<TransformSet, ExecutionError> {
    let ctx = ExecContext { store, root, authority, mint: Addr::new(0, 99), deploy: 1 };
    run(&ctx, &ops, 100)
}

#[test]
fn snapshot_isolation_old_root_unchanged() {
    let (mut store, r0) = GlobalStore::new();
    let k = Key::Hash(Addr::new(1, 2));
    let mut ts = TransformSet::new();
    ts.record(k, Transform::Write(Value::U64(1)));
    let r1 = store.commit(r0, &ts).unwrap();
    let mut ts2 = TransformSet::new();
    ts2.record(k, Transform::Write(Value::U64(2)));
    let r2 = store.commit(r1, &ts2).unwrap();
    assert_eq!(store.read(r0, &k), None);
    assert_eq!(store.read(r1, &k), Some(Value::U64(1)));
    assert_eq!(store.read(r2, &k), Some(Value::U64(2)));
    // a second branch off r1 leaves r2 as it was
    let r3 = store.commit(r1, &ts).unwrap();
    assert_eq!(store.read(r3, &k), Some(Value::U64(1)));
    assert_eq!(store.read(r2, &k), Some(Value::U64(2)));
}

#[test]
fn commit_on_unknown_root_fails() {
    let (mut store, _r0) = GlobalStore::new();
    let ts = TransformSet::new();
    assert_eq!(store.commit(Root { id: 7 }, &ts), Err(StoreError::RootNotFound));
    assert_eq!(store.read(Root { id: 7 }, &Key::Hash(Addr::new(0, 0))), None);
    assert!(!store.contains_root(Root { id: 1 }));
}

#[test]
fn adds_commute_across_deploys() {
    let k = Key::Hash(Addr::new(0, 5));
    let mut t1 = TransformSet::new();
    t1.record(k, Transform::AddU64(3));
    let mut t2 = TransformSet::new();
    t2.record(k, Transform::AddU64(u64::MAX));
    let mut base = TransformSet::new();
    base.record(k, Transform::Write(Value::U64(10)));
    let (mut store, r0) = GlobalStore::new();
    let rb = store.commit(r0, &base).unwrap();
    let mut t1b = TransformSet::new();
    t1b.record(k, Transform::AddU64(3));
    let mut t2b = TransformSet::new();
    t2b.record(k, Transform::AddU64(u64::MAX));
    let ra = commit_block(&mut store, rb, &vec![Ok(t1), Ok(t2)]).unwrap();
    let rc = commit_block(&mut store, rb, &vec![Ok(t2b), Ok(t1b)]).unwrap();
    assert_eq!(store.read(ra, &k), Some(Value::U64(12)));
    assert_eq!(store.read(rc, &k), Some(Value::U64(12)));
}

#[test]
fn adds_commute_within_execution() {
    let a = Transform::AddU128(7);
    let b = Transform::AddU128(5);
    assert_eq!(a.compose(&b), Transform::AddU128(12));
    assert_eq!(b.compose(&a), Transform::AddU128(12));
    let cur = Some(Value::U128(100));
    assert_eq!(a.apply(cur).unwrap(), Some(Value::U128(107)));
    assert_eq!(b.apply(a.apply(cur).unwrap()).unwrap(), Some(Value::U128(112)));
    assert_eq!(a.apply(b.apply(cur).unwrap()).unwrap(), Some(Value::U128(112)));
}

#[test]
fn write_precedence_within_execution() {
    let (store, r0) = GlobalStore::new();
    let u = uref(1, AccessRights::read_add_write());
    let ops = vec![
        Op::Write(u, Value::U64(1)),
        Op::AddU64(u, 5),
        Op::AddU64(u, 6),
        Op::Write(u, Value::U64(2)),
    ];
    let ts = run_ops(&store, r0, &vec![u], ops).unwrap();
    assert_eq!(ts.get(&slot(&u)), Some(Transform::Write(Value::U64(2))));
    assert_eq!(ts.len(), 1);
}

#[test]
fn write_precedence_across_deploys() {
    let (mut store, r0) = GlobalStore::new();
    let u = uref(1, AccessRights::read_add_write());
    let auth = vec![u];
    let d1 = run_ops(&store, r0, &auth, vec![Op::Write(u, Value::U64(1))]).unwrap();
    let d2 = run_ops(&store, r0, &auth, vec![Op::AddU64(u, 40)]).unwrap();
    let d3 = run_ops(&store, r0, &auth, vec![Op::Write(u, Value::U64(2))]).unwrap();
    let r1 = commit_block(&mut store, r0, &vec![Ok(d1), Ok(d2), Ok(d3)]).unwrap();
    assert_eq!(store.read(r1, &slot(&u)), Some(Value::U64(2)));
}

#[test]
fn write_then_add_across_deploys_adds_onto_write() {
    let (mut store, r0) = GlobalStore::new();
    let u = uref(1, AccessRights::read_add_write());
    let auth = vec![u];
    let d1 = run_ops(&store, r0, &auth, vec![Op::Write(u, Value::U64(10))]).unwrap();
    let d2 = run_ops(&store, r0, &auth, vec![Op::AddU64(u, 5)]).unwrap();
    let r1 = commit_block(&mut store, r0, &vec![Ok(d1), Ok(d2)]).unwrap();
    assert_eq!(store.read(r1, &slot(&u)), Some(Value::U64(15)));
}

#[test]
fn failed_execution_leaves_no_effect() {
    let (mut store, r0) = GlobalStore::new();
    let u = uref(1, AccessRights::read_add_write());
    let mut genesis = TransformSet::new();
    genesis.record(slot(&u), Transform::Write(Value::U64(9)));
    let r1 = store.commit(r0, &genesis).unwrap();
    let res = run_ops(&store, r1, &vec![u], vec![Op::Write(u, Value::U64(100)), Op::Revert(3)]);
    assert_eq!(res.as_ref().err(), Some(&ExecutionError::Revert(3)));
    let r2 = commit_block(&mut store, r1, &vec![res]).unwrap();
    assert_eq!(store.read(r1, &slot(&u)), Some(Value::U64(9)));
    assert_eq!(store.read(r2, &slot(&u)), Some(Value::U64(9)));
}

#[test]
fn resource_limit_is_an_execution_error() {
    let (store, r0) = GlobalStore::new();
    let u = uref(1, AccessRights::read_add_write());
    let ctx = ExecContext { store: &store, root: r0, authority: &vec![u], mint: Addr::new(0, 99), deploy: 1 };
    let ops = vec![Op::AddU64(u, 1), Op::AddU64(u, 1), Op::AddU64(u, 1)];
    assert_eq!(run(&ctx, &ops, 2).err(), Some(ExecutionError::ResourceExceeded));
    let ts = run(&ctx, &ops, 3).unwrap();
    assert_eq!(ts.get(&slot(&u)), Some(Transform::AddU64(3)));
}

#[test]
fn read_only_uref_cannot_write_or_add() {
    let (store, r0) = GlobalStore::new();
    let u = uref(1, AccessRights::read_only());
    let auth = vec![u];
    let invalid = Some(ExecutionError::Addressing(AddressingError::InvalidAccess));
    assert_eq!(run_ops(&store, r0, &auth, vec![Op::Write(u, Value::Unit)]).err(), invalid);
    assert_eq!(run_ops(&store, r0, &auth, vec![Op::AddU64(u, 1)]).err(), invalid);
    assert_eq!(run_ops(&store, r0, &auth, vec![Op::AddU128(u, 1)]).err(), invalid);
    let ts = run_ops(&store, r0, &auth, vec![Op::Read(u)]).unwrap();
    assert_eq!(ts.get(&slot(&u)), Some(Transform::Identity));
}

#[test]
fn write_or_add_only_uref_cannot_read() {
    let (store, r0) = GlobalStore::new();
    let w = uref(1, AccessRights::write_only());
    let a = uref(2, AccessRights::add_only());
    let auth = vec![w, a];
    let invalid = Some(ExecutionError::Addressing(AddressingError::InvalidAccess));
    assert_eq!(run_ops(&store, r0, &auth, vec![Op::Read(w)]).err(), invalid);
    assert_eq!(run_ops(&store, r0, &auth, vec![Op::Read(a)]).err(), invalid);
    assert!(run_ops(&store, r0, &auth, vec![Op::Write(w, Value::Bool(true))]).is_ok());
    assert!(run_ops(&store, r0, &auth, vec![Op::AddU64(a, 2)]).is_ok());
}

#[test]
fn forged_uref_is_refused() {
    let (store, r0) = GlobalStore::new();
    let held = uref(1, AccessRights::read_only());
    let forged = uref(2, AccessRights::read_add_write());
    let escalated = uref(1, AccessRights::read_write());
    let auth = vec![held];
    let forged_err = Some(ExecutionError::Addressing(AddressingError::ForgedReference));
    assert_eq!(run_ops(&store, r0, &auth, vec![Op::Read(forged)]).err(), forged_err);
    assert_eq!(run_ops(&store, r0, &auth, vec![Op::Write(escalated, Value::Unit)]).err(), forged_err);
}

#[test]
fn add_onto_wrong_type_is_a_type_error() {
    let (mut store, r0) = GlobalStore::new();
    let u = uref(1, AccessRights::read_add_write());
    let mut g = TransformSet::new();
    g.record(slot(&u), Transform::Write(Value::U128(1)));
    let r1 = store.commit(r0, &g).unwrap();
    let res = run_ops(&store, r1, &vec![u], vec![Op::AddU64(u, 1)]);
    assert_eq!(res.err(), Some(ExecutionError::Type(TransformError::TypeMismatch)));
    let res2 = run_ops(&store, r1, &vec![u], vec![Op::Write(u, Value::Bool(true)), Op::AddU128(u, 1)]);
    assert_eq!(res2.err(), Some(ExecutionError::Type(TransformError::TypeMismatch)));
}

#[test]
fn add_onto_unset_key_adds_onto_zero() {
    let (mut store, r0) = GlobalStore::new();
    let u = uref(1, AccessRights::add_only());
    let ts = run_ops(&store, r0, &vec![u], vec![Op::AddU128(u, 42)]).unwrap();
    let r1 = commit_block(&mut store, r0, &vec![Ok(ts)]).unwrap();
    assert_eq!(store.read(r1, &slot(&u)), Some(Value::U128(42)));
}

#[test]
fn compose_exact_values() {
    assert_eq!(
        Transform::Write(Value::U64(5)).compose(&Transform::AddU64(3)),
        Transform::Write(Value::U64(8))
    );
    assert_eq!(Transform::AddU64(u64::MAX).compose(&Transform::AddU64(2)), Transform::AddU64(1));
    assert_eq!(
        Transform::Write(Value::Bool(true)).compose(&Transform::AddU64(1)),
        Transform::Failure(TransformError::TypeMismatch)
    );
    assert_eq!(
        Transform::AddU64(1).compose(&Transform::AddU128(1)),
        Transform::Failure(TransformError::TypeMismatch)
    );
    assert_eq!(Transform::Identity.compose(&Transform::AddU64(4)), Transform::AddU64(4));
    assert_eq!(Transform::AddU64(4).compose(&Transform::Identity), Transform::AddU64(4));
    assert_eq!(
        Transform::AddU64(4).compose(&Transform::Write(Value::Unit)),
        Transform::Write(Value::Unit)
    );
    let f = Transform::Failure(TransformError::TypeMismatch);
    assert_eq!(f.compose(&Transform::Write(Value::Unit)), f);
    assert_eq!(f.apply(None), Err(TransformError::TypeMismatch));
    assert_eq!(Transform::Identity.apply(None), Ok(None));
    assert_eq!(
        Transform::AddU128(u128::MAX).apply(Some(Value::U128(3))),
        Ok(Some(Value::U128(2)))
    );
}

#[test]
fn record_composes_on_the_same_key() {
    let k = Key::Hash(Addr::new(3, 3));
    let other = Key::Hash(Addr::new(3, 4));
    let mut ts = TransformSet::new();
    ts.record(k, Transform::AddU64(1));
    ts.record(other, Transform::Identity);
    ts.record(k, Transform::AddU64(2));
    assert_eq!(ts.len(), 2);
    assert_eq!(ts.get(&k), Some(Transform::AddU64(3)));
    assert_eq!(ts.get(&other), Some(Transform::Identity));
    assert_eq!(ts.get(&Key::Hash(Addr::new(9, 9))), None);
}

#[test]
fn normalize_ignores_rights() {
    let a = URef { addr: Addr::new(1, 1), rights: AccessRights::read_only() };
    let b = URef { addr: Addr::new(1, 1), rights: AccessRights::read_add_write() };
    assert_ne!(Key::URef(a), Key::URef(b));
    assert_eq!(Key::URef(a).normalize(), Key::URef(b).normalize());
    assert_eq!(Key::Hash(Addr::new(1, 1)).normalize(), Key::Hash(Addr::new(1, 1)));
    let narrowed = b.with_rights(&AccessRights::read_only());
    assert_eq!(narrowed, a);
}

#[test]
fn local_keys_are_deterministic_and_distinct() {
    let seed = Addr::new(5, 5);
    assert_eq!(Key::local(seed, Addr::new(1, 0)), Key::local(seed, Addr::new(1, 0)));
    assert_ne!(Key::local(seed, Addr::new(1, 0)), Key::local(seed, Addr::new(2, 0)));
    assert_ne!(Key::local(seed, Addr::new(1, 0)), Key::local(Addr::new(6, 5), Addr::new(1, 0)));
}

#[test]
fn access_rights_union_and_subset() {
    let r = AccessRights::read_only();
    let w = AccessRights::write_only();
    let rw = r.union(&w);
    assert_eq!(rw, AccessRights::read_write());
    assert!(r.is_subset_of(&rw));
    assert!(!rw.is_subset_of(&r));
    assert!(rw.is_readable() && rw.is_writeable() && !rw.is_addable());
    assert!(AccessRights::none().is_subset_of(&r));
}

#[test]
fn add_composition_is_associative() {
    let a = Transform::AddU64(u64::MAX - 1);
    let b = Transform::AddU64(5);
    let c = Transform::AddU64(9);
    assert_eq!(a.compose(&b).compose(&c), a.compose(&b.compose(&c)));
    assert_eq!(a.compose(&b).compose(&c), Transform::AddU64(12));
    let mixed = Transform::AddU128(1);
    assert_eq!(a.compose(&mixed).compose(&c), a.compose(&mixed.compose(&c)));
}
