//! Execution of deploys against a fixed snapshot through a tracked view, dispatch to
//! stored contracts, and sequential commits of a block's results.
use vstd::prelude::*;
use crate::address::{AccessRights, Addr, Key, URef};
use crate::registry::{ContractPackage, ContractVersionKey, EntryPoint, EntryPointType, RegistryError};
use crate::store::{GlobalStore, Root, StoreError, TransformSet, committed_value, recorded};
use crate::transform::{wrap64, Transform, TransformError, Value};

verus! {

#[derive(Clone, Copy, Debug, PartialEq, Eq, Structural)]
pub enum AddressingError {
    /// The URef is not held by the executing authority, or claims more rights than held.
    ForgedReference,
    /// The URef lacks the right that the operation needs.
    InvalidAccess,
    /// The address a fresh URef would take already holds a value.
    AddressInUse,
}

#[derive(Clone, Copy, Debug, PartialEq, Eq, Structural)]
pub enum PermissionError {
    VersionNotFound,
    VersionRetired,
    ContractNotFound,
    EntryPointNotFound,
    /// The caller holds no URef of any group the entry point admits.
    AccessDenied,
}

#[derive(Clone, Copy, Debug, PartialEq, Eq, Structural)]
pub enum ExecutionError {
    Addressing(AddressingError),
    Type(TransformError),
    Permission(PermissionError),
    /// The deploy ran out of its operation budget.
    ResourceExceeded,
    /// A transfer asked for more than the source purse holds.
    InsufficientFunds,
    /// The program reverted on purpose, with its own code.
    Revert(u32),
}

/// One operation of a deploy's program on the tracked state view.
#[derive(Clone, Copy, Debug, PartialEq, Eq, Structural)]
pub enum Op {
    Read(URef),
    Write(URef, Value),
    AddU64(URef, u64),
    AddU128(URef, u128),
    /// Moves `amount` from one purse's balance to another's, through the mint's local keys.
    Transfer { source: URef, target: URef, amount: u128 },
    /// Allocates a fresh URef, with every right, holding the value; the execution holds it
    /// from then on. Its address is made from the deploy's identity and a counter, and the
    /// allocation fails where that address already holds a value, so that no URef handed
    /// out earlier is handed out again.
    NewURef(Value),
    Revert(u32),
}

/// What an execution runs against: a snapshot, the authority it starts with, the mint's
/// seed, and the deploy's identity, from which its fresh URefs' addresses are made (each
/// deploy of a block needs its own).
pub struct ExecContext<'a> {
    pub store: &'a GlobalStore,
    pub root: Root,
    pub authority: &'a Vec<URef>,
    pub mint: Addr,
    pub deploy: u128,
}

/// `authority` holds a URef at `u`'s address with at least `u`'s rights.
pub open spec fn held(authority: Seq<URef>, u: URef) -> bool {
    exists|i: int|
        0 <= i < authority.len() && authority[i].addr == u.addr && u.rights.spec_subset_of(
            authority[i].rights,
        )
}

/// The storage key of a URef.
pub open spec fn slot(u: URef) -> Key {
    Key::URef(u).spec_normalize()
}

/// The balance key of the purse at `purse` under the mint seeded by `mint`.
pub open spec fn balance_key(mint: Addr, purse: Addr) -> Key {
    Key::spec_local(mint, purse)
}

/// The current value of `k` as the execution sees it: the snapshot's value with the
/// execution's own effects applied.
pub open spec fn current(
    store: GlobalStore,
    root: Root,
    m: Map<Key, Transform>,
    k: Key,
) -> Result<Option<Value>, TransformError> {
    if m.contains_key(k) {
        m[k].spec_apply(store.lookup(root, k))
    } else {
        Ok(store.lookup(root, k))
    }
}

pub open spec fn record_on(m: Map<Key, Transform>, k: Key, t: Transform) -> Map<Key, Transform> {
    m.insert(k, recorded(if m.contains_key(k) { Some(m[k]) } else { None }, t))
}

pub open spec fn access_error(authority: Seq<URef>, u: URef, right: bool) -> Option<ExecutionError> {
    if !held(authority, u) {
        Some(ExecutionError::Addressing(AddressingError::ForgedReference))
    } else if !right {
        Some(ExecutionError::Addressing(AddressingError::InvalidAccess))
    } else {
        None
    }
}

/// Records `t` on `k` once it is known to apply to the current value.
pub open spec fn checked_record(
    store: GlobalStore,
    root: Root,
    m: Map<Key, Transform>,
    k: Key,
    t: Transform,
) -> Result<Map<Key, Transform>, ExecutionError> {
    match current(store, root, m, k) {
        Err(e) => Err(ExecutionError::Type(e)),
        Ok(cur) => match t.spec_apply(cur) {
            Err(e) => Err(ExecutionError::Type(e)),
            Ok(_) => Ok(record_on(m, k, t)),
        },
    }
}

/// What an execution has built up: its transforms, the URefs it holds, and how many fresh
/// URefs it has allocated.
pub type ViewState = (Map<Key, Transform>, Seq<URef>, nat);

/// The URef the `n`-th allocation of deploy `deploy` creates, with every right.
pub open spec fn fresh_uref(deploy: u128, n: nat) -> URef {
    URef {
        addr: Addr { hi: deploy, lo: n as u128 },
        rights: AccessRights { read: true, write: true, add: true },
    }
}

/// The state with its transforms replaced by those in `r`.
pub open spec fn keep(st: ViewState, r: Result<Map<Key, Transform>, ExecutionError>) -> Result<
    ViewState,
    ExecutionError,
> {
    match r {
        Ok(m) => Ok((m, st.1, st.2)),
        Err(e) => Err(e),
    }
}

/// The effect of one operation on what the execution has built up so far.
#[verifier::opaque]
pub open spec fn step(
    store: GlobalStore,
    root: Root,
    mint: Addr,
    deploy: u128,
    st: ViewState,
    op: Op,
) -> Result<ViewState, ExecutionError> {
    let m = st.0;
    let authority = st.1;
    match op {
        Op::Read(u) => match access_error(authority, u, u.rights.read) {
            Some(e) => Err(e),
            None => keep(st, checked_record(store, root, m, slot(u), Transform::Identity)),
        },
        Op::Write(u, v) => match access_error(authority, u, u.rights.write) {
            Some(e) => Err(e),
            None => keep(st, checked_record(store, root, m, slot(u), Transform::Write(v))),
        },
        Op::AddU64(u, d) => match access_error(authority, u, u.rights.add) {
            Some(e) => Err(e),
            None => keep(st, checked_record(store, root, m, slot(u), Transform::AddU64(d))),
        },
        Op::AddU128(u, d) => match access_error(authority, u, u.rights.add) {
            Some(e) => Err(e),
            None => keep(st, checked_record(store, root, m, slot(u), Transform::AddU128(d))),
        },
        Op::Transfer { source, target, amount } => match access_error(
            authority,
            source,
            source.rights.write,
        ) {
            Some(e) => Err(e),
            None => match access_error(authority, target, target.rights.add) {
                Some(e) => Err(e),
                None => {
                    let ks = balance_key(mint, source.addr);
                    let kt = balance_key(mint, target.addr);
                    keep(
                        st,
                        match current(store, root, m, ks) {
                            Err(e) => Err(ExecutionError::Type(e)),
                            Ok(Some(Value::U128(b))) => if b < amount {
                                Err(ExecutionError::InsufficientFunds)
                            } else {
                                let m1 = record_on(
                                    m,
                                    ks,
                                    Transform::Write(Value::U128((b - amount) as u128)),
                                );
                                checked_record(store, root, m1, kt, Transform::AddU128(amount))
                            },
                            Ok(None) => if 0 < amount {
                                Err(ExecutionError::InsufficientFunds)
                            } else {
                                checked_record(store, root, m, kt, Transform::AddU128(amount))
                            },
                            Ok(Some(_)) => Err(ExecutionError::Type(TransformError::TypeMismatch)),
                        },
                    )
                },
            },
        },
        Op::NewURef(v) => {
            let u = fresh_uref(deploy, st.2);
            if current(store, root, m, slot(u)) == Ok::<Option<Value>, TransformError>(None) {
                Ok((record_on(m, slot(u), Transform::Write(v)), authority.push(u), st.2 + 1))
            } else {
                Err(ExecutionError::Addressing(AddressingError::AddressInUse))
            }
        },
        Op::Revert(c) => Err(ExecutionError::Revert(c)),
    }
}

/// What running `ops` in order, from the authority `authority` and with a budget of `gas`
/// operations, builds up, or the error that stopped it.
pub open spec fn run_spec(
    store: GlobalStore,
    root: Root,
    mint: Addr,
    deploy: u128,
    authority: Seq<URef>,
    ops: Seq<Op>,
    gas: nat,
) -> Result<ViewState, ExecutionError>
    decreases ops.len(),
{
    if ops.len() == 0 {
        Ok((Map::empty(), authority, 0))
    } else {
        match run_spec(store, root, mint, deploy, authority, ops.drop_last(), gas) {
            Err(e) => Err(e),
            Ok(st) => if ops.len() > gas {
                Err(ExecutionError::ResourceExceeded)
            } else {
                step(store, root, mint, deploy, st, ops.last())
            },
        }
    }
}

/// Once a prefix of a program fails, the whole program fails with the same error.
proof fn lemma_run_error_persists(
    store: GlobalStore,
    root: Root,
    mint: Addr,
    deploy: u128,
    authority: Seq<URef>,
    ops: Seq<Op>,
    gas: nat,
    j: int,
)
    requires
        0 <= j <= ops.len(),
        run_spec(store, root, mint, deploy, authority, ops.take(j), gas) is Err,
    ensures
        run_spec(store, root, mint, deploy, authority, ops, gas) == run_spec(
            store,
            root,
            mint,
            deploy,
            authority,
            ops.take(j),
            gas,
        ),
    decreases ops.len(),
{
    if ops.len() == j {
        assert(ops.take(j) =~= ops);
    } else {
        assert(ops.drop_last().take(j) =~= ops.take(j));
        lemma_run_error_persists(store, root, mint, deploy, authority, ops.drop_last(), gas, j);
    }
}

/// An execution's view of state: reads come from a fixed snapshot, and every effect is
/// kept in its own transform set, never in the store.
pub struct TrackedView {
    pub effects: TransformSet,
    /// The URefs the execution holds.
    pub authority: Vec<URef>,
    /// How many fresh URefs it has allocated.
    pub allocated: usize,
}

fn copy_urefs(v: &Vec<URef>) -> (r: Vec<URef>)
    ensures
        r@ == v@,
{
    let mut r: Vec<URef> = Vec::new();
    let mut i: usize = 0;
    while i < v.len()
        invariant
            i <= v@.len(),
            r@ == v@.take(i as int),
        decreases v@.len() - i,
    {
        r.push(v[i]);
        assert(r@ =~= v@.take(i + 1));
        i = i + 1;
    }
    assert(v@.take(v@.len() as int) =~= v@);
    r
}

impl TrackedView {
    pub open spec fn state(&self) -> ViewState {
        (self.effects@, self.authority@, self.allocated as nat)
    }

    pub fn new(authority: Vec<URef>) -> (r: TrackedView)
        ensures
            r.effects.wf(),
            r.state() == (Map::<Key, Transform>::empty(), authority@, 0nat),
    {
        TrackedView { effects: TransformSet::new(), authority, allocated: 0 }
    }

    /// The current value of `k` for this execution.
    pub fn current(&self, ctx: &ExecContext, k: &Key) -> (r: Result<Option<Value>, TransformError>)
        requires
            self.effects.wf(),
        ensures
            r == current(*ctx.store, ctx.root, self.effects@, k.spec_normalize()),
    {
        let nk = k.normalize();
        let base = ctx.store.read(ctx.root, &nk);
        match self.effects.get(&nk) {
            Some(t) => t.apply(base),
            None => Ok(base),
        }
    }

    fn checked_record(&mut self, ctx: &ExecContext, k: Key, t: Transform) -> (r: Result<(), ExecutionError>)
        requires
            old(self).effects.wf(),
            k == k.spec_normalize(),
        ensures
            final(self).effects.wf(),
            final(self).authority@ == old(self).authority@,
            final(self).allocated == old(self).allocated,
            match checked_record(*ctx.store, ctx.root, old(self).effects@, k, t) {
                Ok(m) => r is Ok && final(self).effects@ == m,
                Err(e) => r == Err::<(), ExecutionError>(e),
            },
    {
        match self.current(ctx, &k) {
            Err(e) => Err(ExecutionError::Type(e)),
            Ok(cur) => match t.apply(cur) {
                Err(e) => Err(ExecutionError::Type(e)),
                Ok(_) => {
                    self.effects.record(k, t);
                    Ok(())
                },
            },
        }
    }

    /// Runs one operation. On an error the caller discards the whole view.
    pub fn step(&mut self, ctx: &ExecContext, op: &Op) -> (r: Result<(), ExecutionError>)
        requires
            old(self).effects.wf(),
            old(self).allocated < usize::MAX,
        ensures
            final(self).effects.wf(),
            final(self).allocated <= old(self).allocated + 1,
            match step(*ctx.store, ctx.root, ctx.mint, ctx.deploy, old(self).state(), *op) {
                Ok(st) => r is Ok && final(self).state() == st,
                Err(e) => r == Err::<(), ExecutionError>(e),
            },
    {
        reveal(step);
        match *op {
            Op::Read(u) => {
                check_access(&self.authority, &u, u.rights.read)?;
                self.checked_record(ctx, Key::URef(u).normalize(), Transform::Identity)
            },
            Op::Write(u, v) => {
                check_access(&self.authority, &u, u.rights.write)?;
                self.checked_record(ctx, Key::URef(u).normalize(), Transform::Write(v))
            },
            Op::AddU64(u, d) => {
                check_access(&self.authority, &u, u.rights.add)?;
                self.checked_record(ctx, Key::URef(u).normalize(), Transform::AddU64(d))
            },
            Op::AddU128(u, d) => {
                check_access(&self.authority, &u, u.rights.add)?;
                self.checked_record(ctx, Key::URef(u).normalize(), Transform::AddU128(d))
            },
            Op::Transfer { source, target, amount } => {
                check_access(&self.authority, &source, source.rights.write)?;
                check_access(&self.authority, &target, target.rights.add)?;
                let ks = Key::local(ctx.mint, source.addr);
                let kt = Key::local(ctx.mint, target.addr);
                match self.current(ctx, &ks) {
                    Err(e) => Err(ExecutionError::Type(e)),
                    Ok(Some(Value::U128(b))) => {
                        if b < amount {
                            Err(ExecutionError::InsufficientFunds)
                        } else {
                            self.effects.record(ks, Transform::Write(Value::U128(b - amount)));
                            self.checked_record(ctx, kt, Transform::AddU128(amount))
                        }
                    },
                    Ok(None) => {
                        if 0 < amount {
                            Err(ExecutionError::InsufficientFunds)
                        } else {
                            self.checked_record(ctx, kt, Transform::AddU128(amount))
                        }
                    },
                    Ok(Some(_)) => Err(ExecutionError::Type(TransformError::TypeMismatch)),
                }
            },
            Op::NewURef(v) => {
                let u = URef {
                    addr: Addr { hi: ctx.deploy, lo: self.allocated as u128 },
                    rights: AccessRights::read_add_write(),
                };
                let k = Key::URef(u).normalize();
                match self.current(ctx, &k) {
                    Ok(None) => {
                        self.effects.record(k, Transform::Write(v));
                        self.authority.push(u);
                        self.allocated = self.allocated + 1;
                        Ok(())
                    },
                    _ => Err(ExecutionError::Addressing(AddressingError::AddressInUse)),
                }
            },
            Op::Revert(c) => Err(ExecutionError::Revert(c)),
        }
    }
}

/// The error, if any, of using `u` with the right `right` under `authority`.
pub fn check_access(authority: &Vec<URef>, u: &URef, right: bool) -> (r: Result<(), ExecutionError>)
    ensures
        match access_error(authority@, *u, right) {
            Some(e) => r == Err::<(), ExecutionError>(e),
            None => r is Ok,
        },
{
    if !holds(authority, u) {
        Err(ExecutionError::Addressing(AddressingError::ForgedReference))
    } else if !right {
        Err(ExecutionError::Addressing(AddressingError::InvalidAccess))
    } else {
        Ok(())
    }
}

/// Whether `authority` holds `u`: a URef at its address with at least its rights.
pub fn holds(authority: &Vec<URef>, u: &URef) -> (r: bool)
    ensures
        r == held(authority@, *u),
{
    let mut i: usize = 0;
    while i < authority.len()
        invariant
            i <= authority@.len(),
            forall|j: int|
                0 <= j < i ==> !(authority@[j].addr == u.addr && u.rights.spec_subset_of(
                    authority@[j].rights,
                )),
        decreases authority@.len() - i,
    {
        if authority[i].addr == u.addr && u.rights.is_subset_of(&authority[i].rights) {
            return true;
        }
        i = i + 1;
    }
    false
}

/// Runs `ops` against the snapshot `ctx.root` with a budget of `gas_limit` operations.
/// On success the execution's transform set comes back; on any error nothing of it does,
/// and the store is never touched either way.
pub fn run(ctx: &ExecContext, ops: &Vec<Op>, gas_limit: u64) -> (r: Result<TransformSet, ExecutionError>)
    ensures
        match run_spec(*ctx.store, ctx.root, ctx.mint, ctx.deploy, ctx.authority@, ops@, gas_limit as nat) {
            Ok(st) => r matches Ok(ts) && ts.wf() && ts@ == st.0,
            Err(e) => r == Err::<TransformSet, ExecutionError>(e),
        },
{
    let mut view = TrackedView::new(copy_urefs(ctx.authority));
    let mut i: usize = 0;
    assert(ops@.take(0) =~= Seq::<Op>::empty());
    while i < ops.len()
        invariant
            i <= ops@.len(),
            view.effects.wf(),
            view.allocated <= i,
            run_spec(*ctx.store, ctx.root, ctx.mint, ctx.deploy, ctx.authority@, ops@.take(i as int), gas_limit as nat)
                == Ok::<ViewState, ExecutionError>(view.state()),
        decreases ops@.len() - i,
    {
        let ghost prefix = ops@.take(i + 1);
        assert(prefix.drop_last() =~= ops@.take(i as int));
        assert(prefix.last() == ops@[i as int]);
        if i as u64 >= gas_limit {
            proof {
                lemma_run_error_persists(*ctx.store, ctx.root, ctx.mint, ctx.deploy, ctx.authority@, ops@, gas_limit as nat, i + 1);
            }
            return Err(ExecutionError::ResourceExceeded);
        }
        match view.step(ctx, &ops[i]) {
            Err(e) => {
                proof {
                    lemma_run_error_persists(*ctx.store, ctx.root, ctx.mint, ctx.deploy, ctx.authority@, ops@, gas_limit as nat, i + 1);
                }
                return Err(e);
            },
            Ok(()) => {},
        }
        i = i + 1;
    }
    assert(ops@.take(ops@.len() as int) =~= ops@);
    Ok(view.effects)
}

/// An entry point of a stored contract together with its program.
pub struct StoredEntry {
    pub entry_point: EntryPoint,
    pub body: Vec<Op>,
}

/// A contract body as published under a version of a package.
pub struct StoredContract {
    pub hash: Addr,
    /// The URefs the contract itself holds; `Contract` entry points run with these.
    pub authority: Vec<URef>,
    pub entries: Vec<StoredEntry>,
}

/// `i` is the first contract in `cs` with hash `h`.
pub open spec fn first_contract(cs: Seq<StoredContract>, h: Addr, i: int) -> bool {
    0 <= i < cs.len() && cs[i].hash == h && forall|j: int| 0 <= j < i ==> cs[j].hash != h
}

/// `i` is the first entry in `es` called `name`.
pub open spec fn first_entry(es: Seq<StoredEntry>, name: Seq<char>, i: int) -> bool {
    0 <= i < es.len() && es[i].entry_point.name@ == name && forall|j: int|
        0 <= j < i ==> es[j].entry_point.name@ != name
}

/// The authority an entry point runs with.
pub open spec fn run_authority(ep: EntryPoint, caller: Seq<URef>, c: StoredContract) -> Seq<URef> {
    match ep.entry_point_type {
        EntryPointType::Session => caller,
        EntryPointType::Contract => c.authority@,
    }
}

proof fn lemma_first_contract_unique(cs: Seq<StoredContract>, h: Addr, i: int, j: int)
    requires
        first_contract(cs, h, i),
        first_contract(cs, h, j),
    ensures
        i == j,
{
}

proof fn lemma_first_entry_unique(es: Seq<StoredEntry>, name: Seq<char>, i: int, j: int)
    requires
        first_entry(es, name, i),
        first_entry(es, name, j),
    ensures
        i == j,
{
}

/// The outcome of calling entry point `name` of version `version` of `package`: the
/// transforms of its program, or the error that stopped the call.
pub open spec fn dispatch_spec(
    store: GlobalStore,
    root: Root,
    mint: Addr,
    deploy: u128,
    package: ContractPackage,
    contracts: Seq<StoredContract>,
    version: ContractVersionKey,
    name: Seq<char>,
    caller: Seq<URef>,
    gas: nat,
) -> Result<ViewState, ExecutionError> {
    if package.is_removed(version) {
        Err(ExecutionError::Permission(PermissionError::VersionRetired))
    } else if !package.is_active(version) {
        Err(ExecutionError::Permission(PermissionError::VersionNotFound))
    } else {
        let h = package.active_hash(version);
        if !exists|ci: int| first_contract(contracts, h, ci) {
            Err(ExecutionError::Permission(PermissionError::ContractNotFound))
        } else {
            let c = contracts[choose|ci: int| first_contract(contracts, h, ci)];
            if !exists|ei: int| first_entry(c.entries@, name, ei) {
                Err(ExecutionError::Permission(PermissionError::EntryPointNotFound))
            } else {
                let se = c.entries@[choose|ei: int| first_entry(c.entries@, name, ei)];
                if !package.spec_may_invoke(&se.entry_point, caller) {
                    Err(ExecutionError::Permission(PermissionError::AccessDenied))
                } else {
                    run_spec(
                        store,
                        root,
                        mint,
                        deploy,
                        run_authority(se.entry_point, caller, c),
                        se.body@,
                        gas,
                    )
                }
            }
        }
    }
}

fn find_contract(cs: &Vec<StoredContract>, h: Addr) -> (r: Option<usize>)
    ensures
        match r {
            Some(i) => first_contract(cs@, h, i as int),
            None => forall|j: int| 0 <= j < cs@.len() ==> cs@[j].hash != h,
        },
{
    let mut i: usize = 0;
    while i < cs.len()
        invariant
            i <= cs@.len(),
            forall|j: int| 0 <= j < i ==> cs@[j].hash != h,
        decreases cs@.len() - i,
    {
        if cs[i].hash == h {
            return Some(i);
        }
        i = i + 1;
    }
    None
}

fn find_entry(es: &Vec<StoredEntry>, name: &String) -> (r: Option<usize>)
    ensures
        match r {
            Some(i) => first_entry(es@, name@, i as int),
            None => forall|j: int| 0 <= j < es@.len() ==> es@[j].entry_point.name@ != name@,
        },
{
    let mut i: usize = 0;
    while i < es.len()
        invariant
            i <= es@.len(),
            forall|j: int| 0 <= j < i ==> es@[j].entry_point.name@ != name@,
        decreases es@.len() - i,
    {
        if es[i].entry_point.name.eq(name) {
            return Some(i);
        }
        i = i + 1;
    }
    None
}

/// Calls the entry point `entry_name` of version `version` of `package` on behalf of a
/// caller holding `caller`. The version must be active, the contract published under it
/// must be in `contracts`, the entry point must exist and admit the caller; every such
/// check fails with a permission error before any of the contract's code runs. The
/// program then runs with the caller's authority for a session entry point and with the
/// contract's own for a contract entry point.
pub fn execute_stored(
    store: &GlobalStore,
    root: Root,
    mint: Addr,
    deploy: u128,
    package: &ContractPackage,
    contracts: &Vec<StoredContract>,
    version: ContractVersionKey,
    entry_name: &String,
    caller: &Vec<URef>,
    gas_limit: u64,
) -> (r: Result<TransformSet, ExecutionError>)
    requires
        package.wf(),
    ensures
        match dispatch_spec(
            *store,
            root,
            mint,
            deploy,
            *package,
            contracts@,
            version,
            entry_name@,
            caller@,
            gas_limit as nat,
        ) {
            Ok(st) => r matches Ok(ts) && ts.wf() && ts@ == st.0,
            Err(e) => r == Err::<TransformSet, ExecutionError>(e),
        },
{
    let hash = match package.lookup_version(version) {
        Ok(h) => h,
        Err(RegistryError::VersionRetired) => {
            return Err(ExecutionError::Permission(PermissionError::VersionRetired));
        },
        Err(_) => {
            return Err(ExecutionError::Permission(PermissionError::VersionNotFound));
        },
    };
    let ci = match find_contract(contracts, hash) {
        Some(ci) => ci,
        None => {
            assert(!exists|cj: int| first_contract(contracts@, hash, cj));
            return Err(ExecutionError::Permission(PermissionError::ContractNotFound));
        },
    };
    proof {
        let h = package.active_hash(version);
        let cc = choose|cj: int| first_contract(contracts@, h, cj);
        lemma_first_contract_unique(contracts@, h, ci as int, cc);
    }
    let c = &contracts[ci];
    let ei = match find_entry(&c.entries, entry_name) {
        Some(ei) => ei,
        None => {
            assert(!exists|ej: int| first_entry(c.entries@, entry_name@, ej));
            return Err(ExecutionError::Permission(PermissionError::EntryPointNotFound));
        },
    };
    proof {
        let ee = choose|ej: int| first_entry(c.entries@, entry_name@, ej);
        lemma_first_entry_unique(c.entries@, entry_name@, ei as int, ee);
    }
    let se = &c.entries[ei];
    if !package.may_invoke(&se.entry_point, caller) {
        return Err(ExecutionError::Permission(PermissionError::AccessDenied));
    }
    let authority = match se.entry_point.entry_point_type {
        EntryPointType::Session => caller,
        EntryPointType::Contract => &c.authority,
    };
    let ctx = ExecContext { store, root, authority, mint, deploy };
    run(&ctx, &se.body, gas_limit)
}

/// The value of a key after the results of a block are committed in order onto `base`:
/// each successful execution's transform applies in turn, a failed execution adds nothing.
pub open spec fn block_value(
    results: Seq<Result<TransformSet, ExecutionError>>,
    k: Key,
    base: Option<Value>,
) -> Option<Value>
    decreases results.len(),
{
    if results.len() == 0 {
        base
    } else {
        let prev = block_value(results.drop_last(), k, base);
        match results.last() {
            Ok(ts) => committed_value(ts.spec_get(k), prev),
            Err(_) => prev,
        }
    }
}

pub open spec fn results_wf(results: Seq<Result<TransformSet, ExecutionError>>) -> bool {
    forall|i: int| 0 <= i < results.len() ==> (#[trigger] results[i] matches Ok(ts) ==> ts.wf())
}

/// Commits the results of a block's executions onto `root`, in order: the root each
/// commit produces is the pre-state of the next, and failed executions are skipped.
pub fn commit_block(
    store: &mut GlobalStore,
    root: Root,
    results: &Vec<Result<TransformSet, ExecutionError>>,
) -> (r: Result<Root, StoreError>)
    requires
        results_wf(results@),
    ensures
        forall|r0: Root| old(store).has_root(r0) ==> final(store).has_root(r0),
        forall|r0: Root, k: Key|
            old(store).has_root(r0) ==> final(store).lookup(r0, k) == old(store).lookup(r0, k),
        match r {
            Ok(nr) => {
                &&& old(store).has_root(root)
                &&& final(store).has_root(nr)
                &&& forall|k: Key|
                    final(store).lookup(nr, k) == block_value(
                        results@,
                        k,
                        old(store).lookup(root, k),
                    )
            },
            Err(e) => e == StoreError::RootNotFound && !old(store).has_root(root),
        },
{
    if !store.contains_root(root) {
        return Err(StoreError::RootNotFound);
    }
    let mut cur = root;
    let mut i: usize = 0;
    assert(results@.take(0) =~= Seq::<Result<TransformSet, ExecutionError>>::empty());
    while i < results.len()
        invariant
            i <= results@.len(),
            results_wf(results@),
            store.has_root(cur),
            old(store).has_root(root),
            forall|r0: Root| old(store).has_root(r0) ==> store.has_root(r0),
            forall|r0: Root, k: Key|
                old(store).has_root(r0) ==> store.lookup(r0, k) == old(store).lookup(r0, k),
            forall|k: Key|
                store.lookup(cur, k) == block_value(
                    results@.take(i as int),
                    k,
                    old(store).lookup(root, k),
                ),
        decreases results@.len() - i,
    {
        let ghost prefix = results@.take(i + 1);
        assert(prefix.drop_last() =~= results@.take(i as int));
        assert(prefix.last() == results@[i as int]);
        match &results[i] {
            Ok(ts) => {
                assert(results@[i as int] matches Ok(t) ==> t.wf());
                match store.commit(cur, ts) {
                    Ok(nr) => {
                        cur = nr;
                    },
                    Err(e) => {
                        return Err(e);
                    },
                }
            },
            Err(_) => {},
        }
        i = i + 1;
    }
    assert(results@.take(results@.len() as int) =~= results@);
    Ok(cur)
}

/// A deploy that runs its own program with the signer's authority.
pub struct SessionDeploy {
    /// Identifies the deploy within its block; fresh URefs' addresses are made from it, and
    /// an address already in use is never handed out again.
    pub id: u128,
    pub authority: Vec<URef>,
    pub ops: Vec<Op>,
    pub gas_limit: u64,
}

/// What a deploy's result must be, given what running its program gives.
pub open spec fn result_matches(
    r: Result<TransformSet, ExecutionError>,
    outcome: Result<ViewState, ExecutionError>,
) -> bool {
    match outcome {
        Ok(st) => r matches Ok(ts) && ts.wf() && ts@ == st.0,
        Err(e) => r == Err::<TransformSet, ExecutionError>(e),
    }
}

/// Runs every deploy of a block against the same snapshot `root`, so that none sees
/// another's effects, then commits their results onto `root` in block order. Returns each
/// deploy's result and the block's new root. The deploys' identities must differ, so that
/// no two of them allocate the same fresh URef.
pub fn execute_block(
    store: &mut GlobalStore,
    root: Root,
    mint: Addr,
    deploys: &Vec<SessionDeploy>,
) -> (r: (Vec<Result<TransformSet, ExecutionError>>, Result<Root, StoreError>))
    requires
        forall|i: int, j: int|
            0 <= i < j < deploys@.len() ==> deploys@[i].id != deploys@[j].id,
    ensures
        r.0@.len() == deploys@.len(),
        forall|i: int|
            0 <= i < deploys@.len() ==> #[trigger] result_matches(
                r.0@[i],
                run_spec(
                    *old(store),
                    root,
                    mint,
                    deploys@[i].id,
                    deploys@[i].authority@,
                    deploys@[i].ops@,
                    deploys@[i].gas_limit as nat,
                ),
            ),
        forall|r0: Root, k: Key|
            old(store).has_root(r0) ==> final(store).lookup(r0, k) == old(store).lookup(r0, k),
        match r.1 {
            Ok(nr) => {
                &&& old(store).has_root(root)
                &&& final(store).has_root(nr)
                &&& forall|k: Key|
                    final(store).lookup(nr, k) == block_value(r.0@, k, old(store).lookup(root, k))
            },
            Err(e) => e == StoreError::RootNotFound && !old(store).has_root(root),
        },
{
    let mut results: Vec<Result<TransformSet, ExecutionError>> = Vec::new();
    let mut i: usize = 0;
    while i < deploys.len()
        invariant
            i <= deploys@.len(),
            results@.len() == i,
            forall|j: int|
                0 <= j < i ==> #[trigger] result_matches(
                    results@[j],
                    run_spec(
                        *store,
                        root,
                        mint,
                        deploys@[j].id,
                        deploys@[j].authority@,
                        deploys@[j].ops@,
                        deploys@[j].gas_limit as nat,
                    ),
                ),
        decreases deploys@.len() - i,
    {
        let d = &deploys[i];
        let ctx = ExecContext { store: &*store, root, authority: &d.authority, mint, deploy: d.id };
        let res = run(&ctx, &d.ops, d.gas_limit);
        results.push(res);
        proof {
            assert forall|j: int| 0 <= j < i + 1 implies #[trigger] result_matches(
                results@[j],
                run_spec(
                    *store,
                    root,
                    mint,
                    deploys@[j].id,
                    deploys@[j].authority@,
                    deploys@[j].ops@,
                    deploys@[j].gas_limit as nat,
                ),
            ) by {}
        }
        i = i + 1;
    }
    proof {
        assert forall|j: int| 0 <= j < results@.len() implies (#[trigger] results@[j] matches Ok(
            ts,
        ) ==> ts.wf()) by {
            assert(result_matches(
                results@[j],
                run_spec(
                    *store,
                    root,
                    mint,
                    deploys@[j].id,
                    deploys@[j].authority@,
                    deploys@[j].ops@,
                    deploys@[j].gas_limit as nat,
                ),
            ));
        }
    }
    let committed = commit_block(store, root, &results);
    (results, committed)
}

/// A later deploy's write to a key is what the key holds after the block, whatever came
/// before it.
pub proof fn lemma_later_write_wins(
    results: Seq<Result<TransformSet, ExecutionError>>,
    k: Key,
    base: Option<Value>,
    v: Value,
)
    requires
        results.len() > 0,
        results.last() matches Ok(ts) && ts.spec_get(k) == Some(Transform::Write(v)),
    ensures
        block_value(results, k, base) == Some(v),
{
}

/// Two deploys that each add to a key, with numbers of one width, leave it with the same
/// value in either order.
pub proof fn lemma_deploy_adds_commute(
    r1: Result<TransformSet, ExecutionError>,
    r2: Result<TransformSet, ExecutionError>,
    k: Key,
    base: Option<Value>,
)
    requires
        r1 matches Ok(ts1) && r2 matches Ok(ts2) && ((ts1.spec_get(k) matches Some(
            Transform::AddU64(_),
        ) && ts2.spec_get(k) matches Some(Transform::AddU64(_))) || (ts1.spec_get(k) matches Some(
            Transform::AddU128(_),
        ) && ts2.spec_get(k) matches Some(Transform::AddU128(_)))),
    ensures
        block_value(seq![r1, r2], k, base) == block_value(seq![r2, r1], k, base),
{
    let s12 = seq![r1, r2];
    let s21 = seq![r2, r1];
    let e0 = Seq::<Result<TransformSet, ExecutionError>>::empty();
    assert(seq![r1].drop_last() =~= e0);
    assert(seq![r2].drop_last() =~= e0);
    assert(s12.drop_last() =~= seq![r1]);
    assert(s21.drop_last() =~= seq![r2]);
    let t1 = r1->Ok_0.spec_get(k)->Some_0;
    let t2 = r2->Ok_0.spec_get(k)->Some_0;
    assert(block_value(e0, k, base) == base);
    assert(block_value(seq![r1], k, base) == committed_value(Some(t1), base));
    assert(block_value(seq![r2], k, base) == committed_value(Some(t2), base));
    assert(block_value(s12, k, base) == committed_value(Some(t2), committed_value(Some(t1), base)));
    assert(block_value(s21, k, base) == committed_value(Some(t1), committed_value(Some(t2), base)));
    crate::transform::lemma_add_commutes(t1, t2, base);
}

/// A failed execution leaves every key as it was: committing its result changes nothing.
pub proof fn lemma_failed_execution_no_effect(
    results: Seq<Result<TransformSet, ExecutionError>>,
    e: ExecutionError,
    k: Key,
    base: Option<Value>,
)
    ensures
        block_value(results.push(Err(e)), k, base) == block_value(results, k, base),
        block_value(seq![Err::<TransformSet, ExecutionError>(e)], k, base) == base,
{
    assert(results.push(Err(e)).drop_last() =~= results);
    assert(results.push(Err(e)).last() == Err::<TransformSet, ExecutionError>(e));
    assert(block_value(Seq::<Result<TransformSet, ExecutionError>>::empty(), k, base) == base);
    assert(seq![Err::<TransformSet, ExecutionError>(e)].drop_last() =~= Seq::<
        Result<TransformSet, ExecutionError>,
    >::empty());
}

/// A URef without the write right cannot write, and one without the add right cannot
/// add: the attempt fails with an addressing error.
pub proof fn lemma_mutation_needs_rights(
    store: GlobalStore,
    root: Root,
    mint: Addr,
    deploy: u128,
    st: ViewState,
    op: Op,
)
    requires
        (op matches Op::Write(u, _) && !u.rights.write) || (op matches Op::AddU64(u, _)
            && !u.rights.add) || (op matches Op::AddU128(u, _) && !u.rights.add),
    ensures
        step(store, root, mint, deploy, st, op) matches Err(ExecutionError::Addressing(_)),
{
    reveal(step);
}

/// A URef without the read right cannot read: the attempt fails with an addressing error.
pub proof fn lemma_read_needs_right(
    store: GlobalStore,
    root: Root,
    mint: Addr,
    deploy: u128,
    st: ViewState,
    u: URef,
)
    requires
        !u.rights.read,
    ensures
        step(store, root, mint, deploy, st, Op::Read(u)) matches Err(
            ExecutionError::Addressing(_),
        ),
{
    reveal(step);
}

/// A fresh URef is only handed out where its address holds nothing, neither in the
/// snapshot nor among the execution's own effects.
pub proof fn lemma_fresh_uref_unused(
    store: GlobalStore,
    root: Root,
    mint: Addr,
    deploy: u128,
    st: ViewState,
    v: Value,
)
    ensures
        step(store, root, mint, deploy, st, Op::NewURef(v)) is Ok ==> current(
            store,
            root,
            st.0,
            slot(fresh_uref(deploy, st.2)),
        ) == Ok::<Option<Value>, TransformError>(None),
{
    reveal(step);
}

/// A retired version cannot be called, whatever other versions are active.
pub proof fn lemma_retired_version_refused(
    store: GlobalStore,
    root: Root,
    mint: Addr,
    deploy: u128,
    package: ContractPackage,
    contracts: Seq<StoredContract>,
    version: ContractVersionKey,
    name: Seq<char>,
    caller: Seq<URef>,
    gas: nat,
)
    requires
        package.is_removed(version),
    ensures
        dispatch_spec(store, root, mint, deploy, package, contracts, version, name, caller, gas)
            == Err::<ViewState, ExecutionError>(
            ExecutionError::Permission(PermissionError::VersionRetired),
        ),
{
}

/// A group-gated entry point refuses a caller holding no URef of its groups, before any
/// of its code runs, and runs its program for a caller holding one.
pub proof fn lemma_group_gate(
    store: GlobalStore,
    root: Root,
    mint: Addr,
    deploy: u128,
    package: ContractPackage,
    contracts: Seq<StoredContract>,
    version: ContractVersionKey,
    name: Seq<char>,
    caller: Seq<URef>,
    gas: nat,
    ci: int,
    ei: int,
)
    requires
        package.is_active(version),
        !package.is_removed(version),
        first_contract(contracts, package.active_hash(version), ci),
        first_entry(contracts[ci].entries@, name, ei),
        contracts[ci].entries@[ei].entry_point.access is Groups,
    ensures
        ({
            let se = contracts[ci].entries@[ei];
            let groups = se.entry_point.access->Groups_0@;
            let out = dispatch_spec(
                store,
                root,
                mint,
                deploy,
                package,
                contracts,
                version,
                name,
                caller,
                gas,
            );
            &&& !package.spec_authorizes(groups, caller) ==> out == Err::<ViewState, ExecutionError>(
                ExecutionError::Permission(PermissionError::AccessDenied),
            )
            &&& package.spec_authorizes(groups, caller) ==> out == run_spec(
                store,
                root,
                mint,
                deploy,
                run_authority(se.entry_point, caller, contracts[ci]),
                se.body@,
                gas,
            )
        }),
{
    let h = package.active_hash(version);
    let c0 = choose|cj: int| first_contract(contracts, h, cj);
    lemma_first_contract_unique(contracts, h, ci, c0);
    let e0 = choose|ej: int| first_entry(contracts[ci].entries@, name, ej);
    lemma_first_entry_unique(contracts[ci].entries@, name, ei, e0);
}

/// A group-gated counter whose entry point adds one to a slot: an admitted caller's call
/// succeeds with exactly that addition, and committing it leaves the counter one higher.
pub proof fn lemma_gated_counter_increments(
    store: GlobalStore,
    root: Root,
    mint: Addr,
    deploy: u128,
    package: ContractPackage,
    contracts: Seq<StoredContract>,
    version: ContractVersionKey,
    name: Seq<char>,
    caller: Seq<URef>,
    gas: nat,
    ci: int,
    ei: int,
    counter: URef,
    n: u64,
)
    requires
        package.is_active(version),
        !package.is_removed(version),
        first_contract(contracts, package.active_hash(version), ci),
        first_entry(contracts[ci].entries@, name, ei),
        contracts[ci].entries@[ei].entry_point.access is Groups,
        package.spec_authorizes(
            contracts[ci].entries@[ei].entry_point.access->Groups_0@,
            caller,
        ),
        contracts[ci].entries@[ei].body@ == seq![Op::AddU64(counter, 1)],
        held(run_authority(contracts[ci].entries@[ei].entry_point, caller, contracts[ci]), counter),
        counter.rights.add,
        gas >= 1,
        store.lookup(root, slot(counter)) == Some(Value::U64(n)),
    ensures
        dispatch_spec(store, root, mint, deploy, package, contracts, version, name, caller, gas)
            matches Ok(st) && st.0 == Map::<Key, Transform>::empty().insert(
            slot(counter),
            Transform::AddU64(1),
        ),
        committed_value(Some(Transform::AddU64(1)), Some(Value::U64(n))) == Some(
            Value::U64(wrap64(n + 1)),
        ),
{
    lemma_group_gate(store, root, mint, deploy, package, contracts, version, name, caller, gas, ci, ei);
    let se = contracts[ci].entries@[ei];
    let auth = run_authority(se.entry_point, caller, contracts[ci]);
    assert(se.body@.drop_last() =~= Seq::<Op>::empty());
    assert(se.body@.last() == Op::AddU64(counter, 1));
    reveal(step);
    let st0: ViewState = (Map::<Key, Transform>::empty(), auth, 0nat);
    assert(run_spec(store, root, mint, deploy, auth, se.body@.drop_last(), gas) == Ok::<
        ViewState,
        ExecutionError,
    >(st0));
}

} // verus!
