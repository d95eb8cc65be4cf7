//! Versioned contract packages: active and retired versions, permission groups, entry
//! points and their access policy, and the flat record form of a package.
use vstd::prelude::*;
use crate::address::{Addr, URef};

verus! {

/// Identifies one published version of a contract package.
#[derive(Clone, Copy, Debug, PartialEq, Eq, Structural, PartialOrd, Ord, Hash)]
pub struct ContractVersionKey {
    pub protocol_version_major: u32,
    pub contract_version: u32,
}

impl ContractVersionKey {
    pub fn new(protocol_version_major: u32, contract_version: u32) -> (r: ContractVersionKey)
        ensures
            r.protocol_version_major == protocol_version_major,
            r.contract_version == contract_version,
    {
        ContractVersionKey { protocol_version_major, contract_version }
    }
}

#[derive(Clone, Copy, Debug, PartialEq, Eq, Structural)]
pub enum RegistryError {
    /// The version was never published.
    VersionNotFound,
    /// The version was published and then retired.
    VersionRetired,
    /// The version key is already taken, by an active or a retired version.
    VersionExists,
    /// The caller does not hold the package's access key with the write right.
    AccessDenied,
}

/// A named permission group: holding any of its URefs admits a caller.
pub struct Group {
    pub name: String,
    pub urefs: Vec<URef>,
}

/// The type of a parameter or of a result.
#[derive(Clone, Copy, Debug, PartialEq, Eq, Structural)]
pub enum CLType {
    Unit,
    Bool,
    U64,
    U128,
    Key,
    URef,
    Any,
}

pub struct Parameter {
    pub name: String,
    pub cl_type: CLType,
}

/// Who may call an entry point.
pub enum EntryPointAccess {
    Public,
    /// Callers holding a URef of one of the named groups. An empty list seals the entry
    /// point: nobody can call it.
    Groups(Vec<String>),
}

/// Whose authority an entry point runs with.
#[derive(Clone, Copy, Debug, PartialEq, Eq, Structural)]
pub enum EntryPointType {
    /// The calling account's.
    Session,
    /// The called contract's own stored authority.
    Contract,
}

/// A named, separately access-controlled callable surface of a contract.
pub struct EntryPoint {
    pub name: String,
    pub args: Vec<Parameter>,
    pub ret: CLType,
    pub access: EntryPointAccess,
    pub entry_point_type: EntryPointType,
}

impl EntryPoint {
    pub fn new(
        name: String,
        args: Vec<Parameter>,
        ret: CLType,
        access: EntryPointAccess,
        entry_point_type: EntryPointType,
    ) -> (r: EntryPoint)
        ensures
            r.name@ == name@,
            r.args@ == args@,
            r.ret == ret,
            r.access == access,
            r.entry_point_type == entry_point_type,
    {
        EntryPoint { name, args, ret, access, entry_point_type }
    }
}

/// The flat form in which a contract package is persisted and exchanged.
pub struct ContractPackageRecord {
    pub access_key: URef,
    pub active_versions: Vec<(ContractVersionKey, Addr)>,
    pub removed_versions: Vec<ContractVersionKey>,
    pub groups: Vec<Group>,
}

#[derive(Clone, Copy, Debug, PartialEq, Eq, Structural)]
pub enum ParsingError {
    /// A version key appears twice among the active or among the retired versions.
    DuplicateVersion,
    /// A version key is both active and retired.
    VersionActiveAndRetired,
    /// Two groups share a name.
    DuplicateGroup,
    /// An entry point record says nothing of who may call it.
    MissingAccess,
    /// An entry point record says nothing of whose authority it runs with.
    MissingEntryPointType,
}

/// The flat form of an entry point, in which access and type may be missing.
pub struct EntryPointRecord {
    pub name: String,
    pub args: Vec<Parameter>,
    pub ret: CLType,
    pub access: Option<EntryPointAccess>,
    pub entry_point_type: Option<EntryPointType>,
}

pub open spec fn active_keys_unique(v: Seq<(ContractVersionKey, Addr)>) -> bool {
    distinct_keys(v)
}

pub open spec fn keys_unique(v: Seq<ContractVersionKey>) -> bool {
    distinct_keys(v)
}

pub open spec fn keys_disjoint(a: Seq<(ContractVersionKey, Addr)>, r: Seq<ContractVersionKey>) -> bool {
    forall|i: int, j: int| 0 <= i < a.len() && 0 <= j < r.len() ==> a[i].0 != r[j]
}

impl EntryPoint {
    /// The entry point as a flat record.
    pub fn into_record(self) -> (r: EntryPointRecord)
        ensures
            r.name@ == self.name@,
            r.args@ == self.args@,
            r.ret == self.ret,
            r.access == Some(self.access),
            r.entry_point_type == Some(self.entry_point_type),
    {
        EntryPointRecord {
            name: self.name,
            args: self.args,
            ret: self.ret,
            access: Some(self.access),
            entry_point_type: Some(self.entry_point_type),
        }
    }

    /// The entry point a record describes; a record missing its access or its type
    /// describes none.
    pub fn from_record(rec: EntryPointRecord) -> (r: Result<EntryPoint, ParsingError>)
        ensures
            rec.access is None ==> r == Err::<EntryPoint, ParsingError>(ParsingError::MissingAccess),
            rec.access is Some && rec.entry_point_type is None ==> r == Err::<
                EntryPoint,
                ParsingError,
            >(ParsingError::MissingEntryPointType),
            rec.access is Some && rec.entry_point_type is Some ==> (r matches Ok(ep) && ep.name@
                == rec.name@ && ep.args@ == rec.args@ && ep.ret == rec.ret && Some(ep.access)
                == rec.access && Some(ep.entry_point_type) == rec.entry_point_type),
    {
        let access = match rec.access {
            Some(a) => a,
            None => {
                return Err(ParsingError::MissingAccess);
            },
        };
        let entry_point_type = match rec.entry_point_type {
            Some(t) => t,
            None => {
                return Err(ParsingError::MissingEntryPointType);
            },
        };
        Ok(EntryPoint { name: rec.name, args: rec.args, ret: rec.ret, access, entry_point_type })
    }
}

/// The versioned identity of one upgradeable contract.
pub struct ContractPackage {
    access_key: URef,
    versions: Vec<(ContractVersionKey, Addr)>,
    removed_versions: Vec<ContractVersionKey>,
    groups: Vec<Group>,
}

/// Each group as its name and its URefs.
pub open spec fn groups_view(gs: Seq<Group>) -> Seq<(Seq<char>, Seq<URef>)> {
    gs.map_values(|g: Group| (g.name@, g.urefs@))
}

/// No two groups share a name.
pub open spec fn group_names_unique(gs: Seq<Group>) -> bool {
    forall|i: int, j: int| 0 <= i < j < gs.len() ==> gs[i].name@ != gs[j].name@
}

proof fn lemma_group_holds_replaced(
    before: Seq<Group>,
    after: Seq<Group>,
    i: int,
    name: Seq<char>,
    urefs: Seq<URef>,
)
    requires
        group_names_unique(before),
        0 <= i < before.len(),
        before[i].name@ == name,
        after.len() == before.len(),
        after[i].name@ == name,
        after[i].urefs@ == urefs,
        forall|j: int| 0 <= j < before.len() && j != i ==> after[j] == before[j],
    ensures
        forall|n: Seq<char>, a: Addr|
            group_holds(after, n, a) == if n == name {
                exists|j: int| 0 <= j < urefs.len() && urefs[j].addr == a
            } else {
                group_holds(before, n, a)
            },
{
    assert forall|n: Seq<char>, a: Addr|
        group_holds(after, n, a) == if n == name {
            exists|j: int| 0 <= j < urefs.len() && urefs[j].addr == a
        } else {
            group_holds(before, n, a)
        } by {
        if group_holds(after, n, a) {
            let (gi, j) = choose|gi: int, j: int|
                0 <= gi < after.len() && after[gi].name@ == n && 0 <= j < after[gi].urefs@.len()
                    && after[gi].urefs@[j].addr == a;
            if gi != i {
                assert(after[gi] == before[gi]);
                assert(group_holds(before, n, a));
            }
        }
        if n == name && exists|j: int| 0 <= j < urefs.len() && urefs[j].addr == a {
            let j = choose|j: int| 0 <= j < urefs.len() && urefs[j].addr == a;
            assert(after[i].urefs@[j].addr == a);
        }
        if n != name && group_holds(before, n, a) {
            let (gi, j) = choose|gi: int, j: int|
                0 <= gi < before.len() && before[gi].name@ == n && 0 <= j < before[gi].urefs@.len()
                    && before[gi].urefs@[j].addr == a;
            assert(gi != i);
            assert(after[gi] == before[gi]);
        }
    }
}

pub open spec fn group_holds(groups: Seq<Group>, name: Seq<char>, addr: Addr) -> bool {
    exists|i: int, j: int|
        0 <= i < groups.len() && groups[i].name@ == name && 0 <= j < groups[i].urefs@.len()
            && groups[i].urefs@[j].addr == addr
}

impl ContractPackage {
    /// Version keys are unique among the active ones and among the retired ones, and no
    /// key is both.
    pub closed spec fn wf(&self) -> bool {
        &&& forall|i: int, j: int|
            0 <= i < j < self.versions@.len() ==> self.versions@[i].0 != self.versions@[j].0
        &&& forall|i: int, j: int|
            0 <= i < j < self.removed_versions@.len() ==> self.removed_versions@[i]
                != self.removed_versions@[j]
        &&& forall|i: int, j: int|
            0 <= i < self.versions@.len() && 0 <= j < self.removed_versions@.len()
                ==> self.versions@[i].0 != self.removed_versions@[j]
        &&& group_names_unique(self.groups@)
    }

    /// The package's groups, in order, each as its name and its URefs.
    pub closed spec fn spec_groups(&self) -> Seq<(Seq<char>, Seq<URef>)> {
        groups_view(self.groups@)
    }

    pub closed spec fn spec_access_key(&self) -> URef {
        self.access_key
    }

    pub closed spec fn is_active(&self, k: ContractVersionKey) -> bool {
        exists|i: int| 0 <= i < self.versions@.len() && self.versions@[i].0 == k
    }

    /// The contract hash of an active version.
    pub closed spec fn active_hash(&self, k: ContractVersionKey) -> Addr {
        let i = choose|i: int| 0 <= i < self.versions@.len() && self.versions@[i].0 == k;
        self.versions@[i].1
    }

    pub closed spec fn is_removed(&self, k: ContractVersionKey) -> bool {
        exists|i: int| 0 <= i < self.removed_versions@.len() && self.removed_versions@[i] == k
    }

    /// A URef at `addr` belongs to the group called `name`.
    pub closed spec fn in_group(&self, name: Seq<char>, addr: Addr) -> bool {
        group_holds(self.groups@, name, addr)
    }

    /// A caller presenting `caller` is admitted by at least one of the groups `names`.
    pub open spec fn spec_authorizes(&self, names: Seq<String>, caller: Seq<URef>) -> bool {
        exists|g: int, u: int|
            0 <= g < names.len() && 0 <= u < caller.len() && self.in_group(names[g]@, caller[u].addr)
    }

    pub fn new(access_key: URef) -> (r: ContractPackage)
        ensures
            r.wf(),
            r.spec_access_key() == access_key,
            forall|k: ContractVersionKey| !r.is_active(k) && !r.is_removed(k),
            forall|n: Seq<char>, a: Addr| !r.in_group(n, a),
            r.spec_groups().len() == 0,
    {
        ContractPackage {
            access_key,
            versions: Vec::new(),
            removed_versions: Vec::new(),
            groups: Vec::new(),
        }
    }

    /// Whether a caller presenting `caller` may invoke `ep`: always for a public entry
    /// point, and for a group-gated one when one of the caller's URefs belongs to one of
    /// its groups.
    pub open spec fn spec_may_invoke(&self, ep: &EntryPoint, caller: Seq<URef>) -> bool {
        match ep.access {
            EntryPointAccess::Public => true,
            EntryPointAccess::Groups(names) => self.spec_authorizes(names@, caller),
        }
    }

    /// Sets the group called `name` to hold exactly `urefs`: an existing group of that
    /// name is replaced in place, otherwise the group is added after the others.
    pub fn add_group(&mut self, name: String, urefs: Vec<URef>)
        requires
            old(self).wf(),
        ensures
            final(self).wf(),
            final(self).spec_access_key() == old(self).spec_access_key(),
            (exists|i: int| 0 <= i < old(self).spec_groups().len() && old(self).spec_groups()[i].0 == name@)
                ==> final(self).spec_groups() == old(self).spec_groups().update(
                choose|i: int| 0 <= i < old(self).spec_groups().len() && old(self).spec_groups()[i].0 == name@,
                (name@, urefs@),
            ),
            !(exists|i: int| 0 <= i < old(self).spec_groups().len() && old(self).spec_groups()[i].0 == name@)
                ==> final(self).spec_groups() == old(self).spec_groups().push((name@, urefs@)),
            forall|n: Seq<char>, a: Addr|
                final(self).in_group(n, a) == if n == name@ {
                    exists|j: int| 0 <= j < urefs@.len() && urefs@[j].addr == a
                } else {
                    old(self).in_group(n, a)
                },
            forall|k2: ContractVersionKey|
                final(self).is_active(k2) == old(self).is_active(k2) && final(self).is_removed(k2)
                    == old(self).is_removed(k2) && (old(self).is_active(k2) ==> final(self).active_hash(k2) == old(self).active_hash(k2)),
    {
        let ghost before = self.groups@;
        let ghost versions_before = self.versions@;
        let ghost removed_before = self.removed_versions@;
        let ghost name_v = name@;
        let ghost urefs_v = urefs@;
        let mut i: usize = 0;
        while i < self.groups.len()
            invariant
                self.groups@ == before,
                i <= before.len(),
                forall|j: int| 0 <= j < i ==> before[j].name@ != name_v,
                name@ == name_v,
                urefs@ == urefs_v,
                self.versions@ == versions_before,
                self.removed_versions@ == removed_before,
                self.access_key == old(self).access_key,
                before == old(self).groups@,
                versions_before == old(self).versions@,
                removed_before == old(self).removed_versions@,
                old(self).wf(),
            decreases before.len() - i,
        {
            if self.groups[i].name.eq(&name) {
                self.groups.set(i, Group { name, urefs });
                proof {
                    let after = self.groups@;
                    assert(self.versions@ == versions_before);
                    assert(self.removed_versions@ == removed_before);
                    assert(groups_view(after) =~= groups_view(before).update(i as int, (name_v, urefs_v)));
                    assert(groups_view(before)[i as int].0 == name_v);
                    let c = choose|c: int| 0 <= c < groups_view(before).len() && groups_view(before)[c].0 == name_v;
                    assert(groups_view(before)[c].0 == before[c].name@);
                    assert(c == i);
                    assert forall|a: int, b: int| 0 <= a < b < after.len() implies after[a].name@ != after[b].name@ by {
                        if a != i && b != i {
                            assert(after[a] == before[a] && after[b] == before[b]);
                        } else if a == i {
                            assert(after[b] == before[b]);
                        } else {
                            assert(after[a] == before[a]);
                        }
                    }
                    lemma_group_holds_replaced(before, after, i as int, name_v, urefs_v);
                    assert(group_names_unique(after));
                    assert(self.wf());
                }
                return;
            }
            i = i + 1;
        }
        self.groups.push(Group { name, urefs });
        proof {
            let after = self.groups@;
            assert(self.versions@ == versions_before);
            assert(self.removed_versions@ == removed_before);
            assert(groups_view(after) =~= groups_view(before).push((name_v, urefs_v)));
            assert(!(exists|c: int| 0 <= c < groups_view(before).len() && groups_view(before)[c].0 == name_v)) by {
                if exists|c: int| 0 <= c < groups_view(before).len() && groups_view(before)[c].0 == name_v {
                    let c = choose|c: int| 0 <= c < groups_view(before).len() && groups_view(before)[c].0 == name_v;
                    assert(groups_view(before)[c].0 == before[c].name@);
                }
            }
            assert forall|a: int, b: int| 0 <= a < b < after.len() implies after[a].name@ != after[b].name@ by {
                assert(after[a] == before[a]);
                if b < before.len() {
                    assert(after[b] == before[b]);
                }
            }
            assert forall|n: Seq<char>, a: Addr|
                group_holds(after, n, a) == if n == name_v {
                    exists|j: int| 0 <= j < urefs_v.len() && urefs_v[j].addr == a
                } else {
                    group_holds(before, n, a)
                } by {
                if group_holds(before, n, a) {
                    let (gi, j) = choose|gi: int, j: int|
                        0 <= gi < before.len() && before[gi].name@ == n && 0 <= j
                            < before[gi].urefs@.len() && before[gi].urefs@[j].addr == a;
                    assert(after[gi] == before[gi]);
                }
                if n == name_v && exists|j: int| 0 <= j < urefs_v.len() && urefs_v[j].addr == a {
                    let j = choose|j: int| 0 <= j < urefs_v.len() && urefs_v[j].addr == a;
                    assert(after[before.len() as int].urefs@[j].addr == a);
                }
                if group_holds(after, n, a) {
                    let (gi, j) = choose|gi: int, j: int|
                        0 <= gi < after.len() && after[gi].name@ == n && 0 <= j
                            < after[gi].urefs@.len() && after[gi].urefs@[j].addr == a;
                    if gi < before.len() {
                        assert(after[gi] == before[gi]);
                    }
                }
            }
        }
    }

    /// Whether a URef at `addr` belongs to the group called `name`.
    pub fn group_contains(&self, name: &String, addr: Addr) -> (r: bool)
        ensures
            r == self.in_group(name@, addr),
    {
        let mut i: usize = 0;
        while i < self.groups.len()
            invariant
                i <= self.groups@.len(),
                forall|i2: int, j: int|
                    0 <= i2 < i && self.groups@[i2].name@ == name@ && 0 <= j
                        < self.groups@[i2].urefs@.len() ==> self.groups@[i2].urefs@[j].addr != addr,
            decreases self.groups@.len() - i,
        {
            let g = &self.groups[i];
            let same_name = g.name.eq(name);
            if same_name {
                let mut j: usize = 0;
                while j < g.urefs.len()
                    invariant
                        i < self.groups@.len(),
                        *g == self.groups@[i as int],
                        g.name@ == name@,
                        j <= g.urefs@.len(),
                        forall|j2: int| 0 <= j2 < j ==> g.urefs@[j2].addr != addr,
                    decreases g.urefs@.len() - j,
                {
                    if g.urefs[j].addr == addr {
                        assert(self.groups@[i as int].urefs@[j as int].addr == addr);
                        assert(self.groups@[i as int].name@ == name@);
                        assert(group_holds(self.groups@, name@, addr));
                        return true;
                    }
                    j = j + 1;
                }
            }
            i = i + 1;
        }
        false
    }

    /// Whether one of `caller`'s URefs belongs to one of the groups `names`.
    pub fn authorizes(&self, names: &Vec<String>, caller: &Vec<URef>) -> (r: bool)
        ensures
            r == self.spec_authorizes(names@, caller@),
    {
        let mut g: usize = 0;
        while g < names.len()
            invariant
                g <= names@.len(),
                forall|g2: int, u: int|
                    0 <= g2 < g && 0 <= u < caller@.len() ==> !self.in_group(names@[g2]@, caller@[u].addr),
            decreases names@.len() - g,
        {
            let mut u: usize = 0;
            while u < caller.len()
                invariant
                    g < names@.len(),
                    u <= caller@.len(),
                    forall|u2: int| 0 <= u2 < u ==> !self.in_group(names@[g as int]@, caller@[u2].addr),
                decreases caller@.len() - u,
            {
                if self.group_contains(&names[g], caller[u].addr) {
                    return true;
                }
                u = u + 1;
            }
            g = g + 1;
        }
        false
    }

    /// Whether a caller presenting `caller` may invoke `ep`.
    pub fn may_invoke(&self, ep: &EntryPoint, caller: &Vec<URef>) -> (r: bool)
        ensures
            r == self.spec_may_invoke(ep, caller@),
    {
        match &ep.access {
            EntryPointAccess::Public => true,
            EntryPointAccess::Groups(names) => self.authorizes(names, caller),
        }
    }

    /// The package as a flat record, listing its active and its retired versions in
    /// ascending key order.
    pub fn into_record(self) -> (r: ContractPackageRecord)
        requires
            self.wf(),
        ensures
            describes(self, r),
            versions_ascending(r.active_versions@),
            keys_ascending(r.removed_versions@),
            active_keys_unique(r.active_versions@),
            keys_unique(r.removed_versions@),
            keys_disjoint(r.active_versions@, r.removed_versions@),
            group_names_unique(r.groups@),
    {
        let mut active: Vec<(ContractVersionKey, Addr)> = Vec::new();
        let mut i: usize = 0;
        while i < self.versions.len()
            invariant
                self.wf(),
                i <= self.versions@.len(),
                versions_ascending(active@),
                forall|x: (ContractVersionKey, Addr)|
                    active@.contains(x) <==> exists|j: int| 0 <= j < i && self.versions@[j] == x,
            decreases self.versions@.len() - i,
        {
            assert forall|a: int| 0 <= a < active@.len() implies active@[a].0 != self.versions@[i as int].0 by {
                assert(active@.contains(active@[a]));
            }
            insert_sorted(&mut active, self.versions[i]);
            i = i + 1;
        }
        let mut removed: Vec<ContractVersionKey> = Vec::new();
        let mut i: usize = 0;
        while i < self.removed_versions.len()
            invariant
                self.wf(),
                i <= self.removed_versions@.len(),
                keys_ascending(removed@),
                versions_ascending(active@),
                forall|x: (ContractVersionKey, Addr)|
                    active@.contains(x) <==> exists|j: int| 0 <= j < self.versions@.len() && self.versions@[j] == x,
                forall|x: ContractVersionKey|
                    removed@.contains(x) <==> exists|j: int| 0 <= j < i && self.removed_versions@[j] == x,
            decreases self.removed_versions@.len() - i,
        {
            assert forall|a: int| 0 <= a < removed@.len() implies removed@[a] != self.removed_versions@[i as int] by {
                assert(removed@.contains(removed@[a]));
            }
            insert_sorted(&mut removed, self.removed_versions[i]);
            i = i + 1;
        }
        proof {
            assert forall|x: (ContractVersionKey, Addr)|
                active@.contains(x) <==> (self.is_active(x.0) && x.1 == self.active_hash(x.0)) by {
                if active@.contains(x) {
                    let j = choose|j: int| 0 <= j < self.versions@.len() && self.versions@[j] == x;
                    self.lemma_active_hash_at(j);
                }
                if self.is_active(x.0) && x.1 == self.active_hash(x.0) {
                    let j = choose|j: int| 0 <= j < self.versions@.len() && self.versions@[j].0 == x.0;
                    self.lemma_active_hash_at(j);
                    assert(self.versions@[j] == x);
                }
            }
            assert forall|a: int, b: int| 0 <= a < b < active@.len() implies active@[a].spec_key()
                != active@[b].spec_key() by {
                assert(key_lt(active@[a].spec_key(), active@[b].spec_key()));
            }
            assert forall|a: int, b: int| 0 <= a < b < removed@.len() implies removed@[a].spec_key()
                != removed@[b].spec_key() by {
                assert(key_lt(removed@[a].spec_key(), removed@[b].spec_key()));
            }
            assert forall|a: int, b: int|
                0 <= a < active@.len() && 0 <= b < removed@.len() implies active@[a].0 != removed@[b] by {
                assert(active@.contains(active@[a]));
                assert(removed@.contains(removed@[b]));
            }
        }
        ContractPackageRecord {
            access_key: self.access_key,
            active_versions: active,
            removed_versions: removed,
            groups: self.groups,
        }
    }

    proof fn lemma_active_hash_at(&self, j: int)
        requires
            self.wf(),
            0 <= j < self.versions@.len(),
        ensures
            self.is_active(self.versions@[j].0),
            self.active_hash(self.versions@[j].0) == self.versions@[j].1,
    {
        let k = self.versions@[j].0;
        let i = choose|i: int| 0 <= i < self.versions@.len() && self.versions@[i].0 == k;
        assert(i == j);
    }

    /// The package a record describes. A record that lists a version key twice, or as
    /// both active and retired, describes no package.
    pub fn from_record(rec: ContractPackageRecord) -> (r: Result<ContractPackage, ParsingError>)
        ensures
            !active_keys_unique(rec.active_versions@) || !keys_unique(rec.removed_versions@)
                ==> r == Err::<ContractPackage, ParsingError>(ParsingError::DuplicateVersion),
            active_keys_unique(rec.active_versions@) && keys_unique(rec.removed_versions@)
                && !keys_disjoint(rec.active_versions@, rec.removed_versions@) ==> r == Err::<
                ContractPackage,
                ParsingError,
            >(ParsingError::VersionActiveAndRetired),
            active_keys_unique(rec.active_versions@) && keys_unique(rec.removed_versions@)
                && keys_disjoint(rec.active_versions@, rec.removed_versions@) && !group_names_unique(
                rec.groups@,
            ) ==> r == Err::<ContractPackage, ParsingError>(ParsingError::DuplicateGroup),
            active_keys_unique(rec.active_versions@) && keys_unique(rec.removed_versions@)
                && keys_disjoint(rec.active_versions@, rec.removed_versions@) && group_names_unique(
                rec.groups@,
            ) ==> (r matches Ok(p) && p.wf() && describes(p, rec)),
    {
        if !keys_distinct(&rec.active_versions) || !keys_distinct(&rec.removed_versions) {
            return Err(ParsingError::DuplicateVersion);
        }
        if !disjoint(&rec.active_versions, &rec.removed_versions) {
            return Err(ParsingError::VersionActiveAndRetired);
        }
        if !group_names_distinct(&rec.groups) {
            return Err(ParsingError::DuplicateGroup);
        }
        let ghost rv = rec.active_versions@;
        let p = ContractPackage {
            access_key: rec.access_key,
            versions: rec.active_versions,
            removed_versions: rec.removed_versions,
            groups: rec.groups,
        };
        proof {
            assert forall|x: (ContractVersionKey, Addr)|
                rv.contains(x) <==> (p.is_active(x.0) && x.1 == p.active_hash(x.0)) by {
                if rv.contains(x) {
                    let j = choose|j: int| 0 <= j < rv.len() && rv[j] == x;
                    p.lemma_active_hash_at(j);
                }
                if p.is_active(x.0) && x.1 == p.active_hash(x.0) {
                    let j = choose|j: int| 0 <= j < rv.len() && rv[j].0 == x.0;
                    p.lemma_active_hash_at(j);
                    assert(rv[j] == x);
                }
            }
        }
        Ok(p)
    }

    pub fn access_key(&self) -> (r: URef)
        ensures
            r == self.spec_access_key(),
    {
        self.access_key
    }

    fn find_active(&self, k: ContractVersionKey) -> (r: Option<usize>)
        ensures
            match r {
                Some(i) => i < self.versions@.len() && self.versions@[i as int].0 == k,
                None => !self.is_active(k),
            },
    {
        let mut i: usize = 0;
        while i < self.versions.len()
            invariant
                i <= self.versions@.len(),
                forall|j: int| 0 <= j < i ==> self.versions@[j].0 != k,
            decreases self.versions@.len() - i,
        {
            if self.versions[i].0 == k {
                return Some(i);
            }
            i = i + 1;
        }
        None
    }

    pub fn is_version_removed(&self, k: ContractVersionKey) -> (r: bool)
        ensures
            r == self.is_removed(k),
    {
        let mut i: usize = 0;
        while i < self.removed_versions.len()
            invariant
                i <= self.removed_versions@.len(),
                forall|j: int| 0 <= j < i ==> self.removed_versions@[j] != k,
            decreases self.removed_versions@.len() - i,
        {
            if self.removed_versions[i] == k {
                return true;
            }
            i = i + 1;
        }
        false
    }

    /// The contract hash of version `k`: an error where `k` was retired or never
    /// published.
    pub fn lookup_version(&self, k: ContractVersionKey) -> (r: Result<Addr, RegistryError>)
        requires
            self.wf(),
        ensures
            self.is_active(k) ==> r == Ok::<Addr, RegistryError>(self.active_hash(k)),
            self.is_removed(k) ==> r == Err::<Addr, RegistryError>(RegistryError::VersionRetired),
            !self.is_active(k) && !self.is_removed(k) ==> r == Err::<Addr, RegistryError>(
                RegistryError::VersionNotFound,
            ),
    {
        match self.find_active(k) {
            Some(i) => {
                proof {
                    if self.is_removed(k) {
                        let j = choose|j: int|
                            0 <= j < self.removed_versions@.len() && self.removed_versions@[j] == k;
                        assert(self.versions@[i as int].0 != self.removed_versions@[j]);
                    }
                }
                Ok(self.versions[i].1)
            },
            None => {
                if self.is_version_removed(k) {
                    Err(RegistryError::VersionRetired)
                } else {
                    Err(RegistryError::VersionNotFound)
                }
            },
        }
    }

    /// A caller presenting `caller` may publish and retire versions: it holds a URef at the
    /// access key's address with the write right.
    pub open spec fn spec_may_publish(&self, caller: Seq<URef>) -> bool {
        exists|i: int|
            0 <= i < caller.len() && caller[i].addr == self.spec_access_key().addr
                && caller[i].rights.write
    }

    pub fn may_publish(&self, caller: &Vec<URef>) -> (r: bool)
        ensures
            r == self.spec_may_publish(caller@),
    {
        let mut i: usize = 0;
        while i < caller.len()
            invariant
                i <= caller@.len(),
                forall|j: int|
                    0 <= j < i ==> !(caller@[j].addr == self.spec_access_key().addr
                        && caller@[j].rights.write),
            decreases caller@.len() - i,
        {
            if caller[i].addr == self.access_key.addr && caller[i].rights.write {
                return true;
            }
            i = i + 1;
        }
        false
    }

    /// Publishes `hash` as version `k`, for a caller holding the access key. Versions are append-only: a key that is active or
    /// was retired cannot be published again, and the package is then left as it was.
    pub fn add_version(
        &mut self,
        k: ContractVersionKey,
        hash: Addr,
        caller: &Vec<URef>,
    ) -> (r: Result<(), RegistryError>)
        requires
            old(self).wf(),
        ensures
            final(self).wf(),
            final(self).spec_access_key() == old(self).spec_access_key(),
            final(self).spec_groups() == old(self).spec_groups(),
            forall|n: Seq<char>, a: Addr| final(self).in_group(n, a) == old(self).in_group(n, a),
            forall|k2: ContractVersionKey| final(self).is_removed(k2) == old(self).is_removed(k2),
            !old(self).spec_may_publish(caller@) ==> r == Err::<(), RegistryError>(RegistryError::AccessDenied)
                && forall|k2: ContractVersionKey|
                final(self).is_active(k2) == old(self).is_active(k2) && (old(self).is_active(k2)
                    ==> final(self).active_hash(k2) == old(self).active_hash(k2)),
            old(self).spec_may_publish(caller@) && (old(self).is_active(k) || old(self).is_removed(k)) ==> r == Err::<(), RegistryError>(
                RegistryError::VersionExists,
            ) && forall|k2: ContractVersionKey|
                final(self).is_active(k2) == old(self).is_active(k2) && (old(self).is_active(k2)
                    ==> final(self).active_hash(k2) == old(self).active_hash(k2)),
            old(self).spec_may_publish(caller@) && !(old(self).is_active(k) || old(self).is_removed(k)) ==> {
                &&& r is Ok
                &&& final(self).is_active(k)
                &&& final(self).active_hash(k) == hash
                &&& forall|k2: ContractVersionKey|
                    k2 != k ==> final(self).is_active(k2) == old(self).is_active(k2) && (old(self).is_active(k2) ==> final(self).active_hash(k2) == old(self).active_hash(k2))
            },
    {
        if !self.may_publish(caller) {
            return Err(RegistryError::AccessDenied);
        }
        if self.find_active(k).is_some() || self.is_version_removed(k) {
            return Err(RegistryError::VersionExists);
        }
        let ghost before = self.versions@;
        let ghost removed_before = self.removed_versions@;
        self.versions.push((k, hash));
        proof {
            assert(self.removed_versions@ == removed_before);
            let after = self.versions@;
            assert(after[before.len() as int] == (k, hash));
            assert(self.is_active(k));
            let i = choose|i: int| 0 <= i < after.len() && after[i].0 == k;
            assert(i == before.len());
            assert forall|k2: ContractVersionKey| k2 != k implies self.is_active(k2) == (exists|
                i: int,
            | 0 <= i < before.len() && before[i].0 == k2) by {
                if exists|i: int| 0 <= i < before.len() && before[i].0 == k2 {
                    let i = choose|i: int| 0 <= i < before.len() && before[i].0 == k2;
                    assert(after[i] == before[i]);
                }
            }
            assert forall|k2: ContractVersionKey|
                k2 != k && (exists|i: int| 0 <= i < before.len() && before[i].0 == k2)
                implies self.active_hash(k2) == before[choose|i: int|
                0 <= i < before.len() && before[i].0 == k2].1 by {
                let i1 = choose|i: int| 0 <= i < before.len() && before[i].0 == k2;
                let i2 = choose|i: int| 0 <= i < after.len() && after[i].0 == k2;
                assert(after[i1] == before[i1]);
                if i1 != i2 {
                    assert(i2 < before.len());
                }
            }
        }
        Ok(())
    }

    /// Retires the active version `k`, for a caller holding the access key: it leaves the active versions, joins the retired
    /// ones, and its key can never be used again.
    pub fn retire_version(
        &mut self,
        k: ContractVersionKey,
        caller: &Vec<URef>,
    ) -> (r: Result<(), RegistryError>)
        requires
            old(self).wf(),
        ensures
            final(self).wf(),
            final(self).spec_access_key() == old(self).spec_access_key(),
            final(self).spec_groups() == old(self).spec_groups(),
            forall|n: Seq<char>, a: Addr| final(self).in_group(n, a) == old(self).in_group(n, a),
            !old(self).spec_may_publish(caller@) ==> r == Err::<(), RegistryError>(RegistryError::AccessDenied),
            old(self).spec_may_publish(caller@) && old(self).is_removed(k) ==> r == Err::<(), RegistryError>(RegistryError::VersionRetired),
            old(self).spec_may_publish(caller@) && !old(self).is_active(k) && !old(self).is_removed(k) ==> r == Err::<
                (),
                RegistryError,
            >(RegistryError::VersionNotFound),
            r is Err ==> forall|k2: ContractVersionKey|
                final(self).is_active(k2) == old(self).is_active(k2) && final(self).is_removed(k2)
                    == old(self).is_removed(k2) && (old(self).is_active(k2) ==> final(self).active_hash(k2) == old(self).active_hash(k2)),
            old(self).spec_may_publish(caller@) && old(self).is_active(k) ==> {
                &&& r is Ok
                &&& !final(self).is_active(k)
                &&& final(self).is_removed(k)
                &&& forall|k2: ContractVersionKey|
                    k2 != k ==> final(self).is_active(k2) == old(self).is_active(k2)
                        && final(self).is_removed(k2) == old(self).is_removed(k2) && (old(self).is_active(k2) ==> final(self).active_hash(k2) == old(self).active_hash(k2))
            },
    {
        if !self.may_publish(caller) {
            return Err(RegistryError::AccessDenied);
        }
        let found = self.find_active(k);
        match found {
            None => {
                if self.is_version_removed(k) {
                    Err(RegistryError::VersionRetired)
                } else {
                    Err(RegistryError::VersionNotFound)
                }
            },
            Some(idx) => {
                let ghost before = self.versions@;
                let ghost removed_before = self.removed_versions@;
                assert(!self.is_removed(k)) by {
                    if self.is_removed(k) {
                        let j = choose|j: int|
                            0 <= j < removed_before.len() && removed_before[j] == k;
                        assert(before[idx as int].0 != removed_before[j]);
                    }
                }
                self.versions.remove(idx);
                self.removed_versions.push(k);
                proof {
                    let after = self.versions@;
                    assert(after == before.remove(idx as int));
                    lemma_remove_at(before, idx as int);
                    let rafter = self.removed_versions@;
                    assert(rafter[removed_before.len() as int] == k);
                    assert forall|k2: ContractVersionKey| k2 != k implies self.is_active(k2) == (
                    exists|i: int| 0 <= i < before.len() && before[i].0 == k2) by {
                        if exists|i: int| 0 <= i < before.len() && before[i].0 == k2 {
                            let i = choose|i: int| 0 <= i < before.len() && before[i].0 == k2;
                            assert(after[if i < idx { i } else { i - 1 }] == before[i]);
                        }
                    }
                    assert(!self.is_active(k));
                    assert forall|k2: ContractVersionKey| k2 != k implies self.is_removed(k2) == (
                    exists|i: int| 0 <= i < removed_before.len() && removed_before[i] == k2) by {
                        if exists|i: int| 0 <= i < removed_before.len() && removed_before[i] == k2 {
                            let i = choose|i: int| 0 <= i < removed_before.len() && removed_before[i] == k2;
                            assert(rafter[i] == removed_before[i]);
                        }
                    }
                    assert(self.is_removed(k));
                    assert forall|k2: ContractVersionKey|
                        k2 != k && (exists|i: int| 0 <= i < before.len() && before[i].0 == k2)
                        implies self.active_hash(k2) == before[choose|i: int|
                        0 <= i < before.len() && before[i].0 == k2].1 by {
                        let i1 = choose|i: int| 0 <= i < before.len() && before[i].0 == k2;
                        assert(after[if i1 < idx { i1 } else { i1 - 1 }] == before[i1]);
                    }
                    assert forall|i: int, j: int|
                        0 <= i < after.len() && 0 <= j < rafter.len() implies after[i].0
                        != rafter[j] by {
                        if j < removed_before.len() {
                            assert(rafter[j] == removed_before[j]);
                        }
                    }
                    assert forall|i: int, j: int|
                        0 <= i < j < rafter.len() implies rafter[i] != rafter[j] by {
                        assert(rafter[i] == removed_before[i]);
                        if j < removed_before.len() {
                            assert(rafter[j] == removed_before[j]);
                        }
                    }
                }
                Ok(())
            },
        }
    }
}

/// Where each entry of a sequence lands once the entry at `idx` is removed.
proof fn lemma_remove_at<T>(s: Seq<T>, idx: int)
    requires
        0 <= idx < s.len(),
    ensures
        s.remove(idx).len() == s.len() - 1,
        forall|i: int|
            0 <= i < s.len() - 1 ==> #[trigger] s.remove(idx)[i] == if i < idx {
                s[i]
            } else {
                s[i + 1]
            },
{
}

fn group_names_distinct(gs: &Vec<Group>) -> (r: bool)
    ensures
        r == group_names_unique(gs@),
{
    let mut j: usize = 0;
    while j < gs.len()
        invariant
            j <= gs@.len(),
            forall|a: int, b: int| 0 <= a < b < j ==> gs@[a].name@ != gs@[b].name@,
        decreases gs@.len() - j,
    {
        let mut i: usize = 0;
        while i < j
            invariant
                j < gs@.len(),
                i <= j,
                forall|a: int, b: int| 0 <= a < b < j ==> gs@[a].name@ != gs@[b].name@,
                forall|a: int| 0 <= a < i ==> gs@[a].name@ != gs@[j as int].name@,
            decreases j - i,
        {
            if gs[i].name.eq(&gs[j].name) {
                return false;
            }
            i = i + 1;
        }
        j = j + 1;
    }
    true
}

fn disjoint(a: &Vec<(ContractVersionKey, Addr)>, r: &Vec<ContractVersionKey>) -> (b: bool)
    ensures
        b == keys_disjoint(a@, r@),
{
    let mut i: usize = 0;
    while i < a.len()
        invariant
            i <= a@.len(),
            forall|x: int, y: int| 0 <= x < i && 0 <= y < r@.len() ==> a@[x].0 != r@[y],
        decreases a@.len() - i,
    {
        let mut j: usize = 0;
        while j < r.len()
            invariant
                i < a@.len(),
                j <= r@.len(),
                forall|x: int, y: int| 0 <= x < i && 0 <= y < r@.len() ==> a@[x].0 != r@[y],
                forall|y: int| 0 <= y < j ==> a@[i as int].0 != r@[y],
            decreases r@.len() - j,
        {
            if a[i].0 == r[j] {
                return false;
            }
            j = j + 1;
        }
        i = i + 1;
    }
    true
}

/// `a` orders before `b`: by protocol major version, then by contract version.
pub open spec fn key_lt(a: ContractVersionKey, b: ContractVersionKey) -> bool {
    a.protocol_version_major < b.protocol_version_major || (a.protocol_version_major
        == b.protocol_version_major && a.contract_version < b.contract_version)
}

pub open spec fn versions_ascending(v: Seq<(ContractVersionKey, Addr)>) -> bool {
    ascending_by_key(v)
}

pub open spec fn keys_ascending(v: Seq<ContractVersionKey>) -> bool {
    ascending_by_key(v)
}

/// `r` holds exactly what `p` holds: its access key, each active version with its hash,
/// its retired versions, and its groups' members.
pub open spec fn describes(p: ContractPackage, r: ContractPackageRecord) -> bool {
    &&& r.access_key == p.spec_access_key()
    &&& forall|x: (ContractVersionKey, Addr)|
        r.active_versions@.contains(x) <==> (p.is_active(x.0) && x.1 == p.active_hash(x.0))
    &&& forall|k: ContractVersionKey| r.removed_versions@.contains(k) <==> p.is_removed(k)
    &&& forall|n: Seq<char>, a: Addr| group_holds(r.groups@, n, a) == p.in_group(n, a)
    &&& groups_view(r.groups@) == p.spec_groups()
}

fn key_less(a: &ContractVersionKey, b: &ContractVersionKey) -> (r: bool)
    ensures
        r == key_lt(*a, *b),
{
    a.protocol_version_major < b.protocol_version_major || (a.protocol_version_major
        == b.protocol_version_major && a.contract_version < b.contract_version)
}

/// A package read back from a record that describes another package holds what that
/// package holds: the round trip through a record keeps a package.
pub proof fn lemma_record_round_trip(p: ContractPackage, q: ContractPackage, r: ContractPackageRecord)
    requires
        describes(p, r),
        describes(q, r),
    ensures
        q.spec_access_key() == p.spec_access_key(),
        forall|k: ContractVersionKey| #![trigger q.is_active(k)] q.is_active(k) == p.is_active(k),
        forall|k: ContractVersionKey|
            p.is_active(k) ==> #[trigger] q.active_hash(k) == p.active_hash(k),
        forall|k: ContractVersionKey| #![trigger q.is_removed(k)] q.is_removed(k) == p.is_removed(k),
        forall|n: Seq<char>, a: Addr| #![trigger q.in_group(n, a)] q.in_group(n, a) == p.in_group(n, a),
{
    assert forall|k: ContractVersionKey| #![trigger q.is_active(k)] q.is_active(k) == p.is_active(k) by {
        if p.is_active(k) {
            assert(r.active_versions@.contains((k, p.active_hash(k))));
        }
        if q.is_active(k) {
            assert(r.active_versions@.contains((k, q.active_hash(k))));
        }
    }
    assert forall|k: ContractVersionKey| p.is_active(k) implies #[trigger] q.active_hash(k)
        == p.active_hash(k) by {
        assert(r.active_versions@.contains((k, p.active_hash(k))));
    }
}

/// Something that carries a contract version key: a version entry, or a key itself.
pub trait VersionKeyed {
    spec fn spec_key(&self) -> ContractVersionKey;

    fn key(&self) -> (r: ContractVersionKey)
        ensures
            r == self.spec_key(),
    ;
}

impl VersionKeyed for (ContractVersionKey, Addr) {
    open spec fn spec_key(&self) -> ContractVersionKey {
        self.0
    }

    fn key(&self) -> (r: ContractVersionKey) {
        self.0
    }
}

impl VersionKeyed for ContractVersionKey {
    open spec fn spec_key(&self) -> ContractVersionKey {
        *self
    }

    fn key(&self) -> (r: ContractVersionKey) {
        *self
    }
}

/// The entries of `v` are in strictly ascending key order.
pub open spec fn ascending_by_key<T: VersionKeyed>(v: Seq<T>) -> bool {
    forall|i: int, j: int| 0 <= i < j < v.len() ==> key_lt(v[i].spec_key(), v[j].spec_key())
}

/// No two entries of `v` share a key.
pub open spec fn distinct_keys<T: VersionKeyed>(v: Seq<T>) -> bool {
    forall|i: int, j: int| 0 <= i < j < v.len() ==> v[i].spec_key() != v[j].spec_key()
}

fn keys_distinct<T: VersionKeyed>(v: &Vec<T>) -> (r: bool)
    ensures
        r == distinct_keys(v@),
{
    let mut j: usize = 0;
    while j < v.len()
        invariant
            j <= v@.len(),
            forall|a: int, b: int| 0 <= a < b < j ==> v@[a].spec_key() != v@[b].spec_key(),
        decreases v@.len() - j,
    {
        let kj = v[j].key();
        let mut i: usize = 0;
        while i < j
            invariant
                j < v@.len(),
                i <= j,
                kj == v@[j as int].spec_key(),
                forall|a: int, b: int| 0 <= a < b < j ==> v@[a].spec_key() != v@[b].spec_key(),
                forall|a: int| 0 <= a < i ==> v@[a].spec_key() != kj,
            decreases j - i,
        {
            if v[i].key() == kj {
                return false;
            }
            i = i + 1;
        }
        j = j + 1;
    }
    true
}

fn insert_sorted<T: VersionKeyed + Copy>(out: &mut Vec<T>, e: T)
    requires
        ascending_by_key(old(out)@),
        forall|i: int| 0 <= i < old(out)@.len() ==> old(out)@[i].spec_key() != e.spec_key(),
    ensures
        ascending_by_key(final(out)@),
        forall|x: T| final(out)@.contains(x) <==> (old(out)@.contains(x) || x == e),
{
    let ek = e.key();
    let mut pos: usize = 0;
    while pos < out.len() && key_less(&out[pos].key(), &ek)
        invariant
            pos <= out@.len(),
            out@ == old(out)@,
            ek == e.spec_key(),
            forall|i: int| 0 <= i < pos ==> key_lt(out@[i].spec_key(), ek),
        decreases out@.len() - pos,
    {
        pos = pos + 1;
    }
    let ghost before = out@;
    out.insert(pos, e);
    proof {
        let after = out@;
        assert forall|i: int| pos <= i < before.len() implies key_lt(ek, before[i].spec_key()) by {
            assert(before[pos as int].spec_key() != ek);
            assert(!key_lt(before[pos as int].spec_key(), ek));
            if i > pos {
                assert(key_lt(before[pos as int].spec_key(), before[i].spec_key()));
            }
        }
        assert forall|x: T| after.contains(x) <==> (before.contains(x) || x == e) by {
            if after.contains(x) {
                let i = choose|i: int| 0 <= i < after.len() && after[i] == x;
                if i < pos {
                    assert(before[i] == x);
                } else if i > pos {
                    assert(before[i - 1] == x);
                }
            }
            if before.contains(x) {
                let i = choose|i: int| 0 <= i < before.len() && before[i] == x;
                if i < pos {
                    assert(after[i] == x);
                } else {
                    assert(after[i + 1] == x);
                }
            }
            if x == e {
                assert(after[pos as int] == x);
            }
        }
    }
}

/// Two lists in strictly ascending key order that hold the same entries are the same list.
pub proof fn lemma_ascending_unique<T: VersionKeyed>(a: Seq<T>, b: Seq<T>)
    requires
        ascending_by_key(a),
        ascending_by_key(b),
        forall|x: T| a.contains(x) <==> b.contains(x),
    ensures
        a == b,
    decreases a.len(),
{
    if a.len() == 0 {
        if b.len() > 0 {
            assert(b.contains(b[0]));
        }
        assert(a =~= b);
    } else {
        assert(a.contains(a.last()));
        let j = choose|j: int| 0 <= j < b.len() && b[j] == a.last();
        assert(b.contains(b.last()));
        let i = choose|i: int| 0 <= i < a.len() && a[i] == b.last();
        assert(a.last() == b.last()) by {
            if j < b.len() - 1 && i < a.len() - 1 {
                assert(key_lt(a.last().spec_key(), b.last().spec_key()));
                assert(key_lt(b.last().spec_key(), a.last().spec_key()));
            }
        }
        let a1 = a.drop_last();
        let b1 = b.drop_last();
        assert forall|x: T| a1.contains(x) <==> b1.contains(x) by {
            if a1.contains(x) {
                let k = choose|k: int| 0 <= k < a1.len() && a1[k] == x;
                assert(a.contains(x) && x != a.last()) by {
                    assert(a[k] == x);
                    assert(key_lt(a[k].spec_key(), a[a.len() - 1].spec_key()));
                }
                let m = choose|m: int| 0 <= m < b.len() && b[m] == x;
                assert(b1[m] == x);
            }
            if b1.contains(x) {
                let k = choose|k: int| 0 <= k < b1.len() && b1[k] == x;
                assert(b.contains(x) && x != b.last()) by {
                    assert(b[k] == x);
                    assert(key_lt(b[k].spec_key(), b[b.len() - 1].spec_key()));
                }
                let m = choose|m: int| 0 <= m < a.len() && a[m] == x;
                assert(a1[m] == x);
            }
        }
        lemma_ascending_unique(a1, b1);
        assert(a =~= a1.push(a.last()));
        assert(b =~= b1.push(b.last()));
    }
}

/// The record of a package is determined by what the package holds: two packages with
/// the same versions, hashes and retired versions give records that list them alike.
pub proof fn lemma_record_canonical(
    p: ContractPackage,
    q: ContractPackage,
    r: ContractPackageRecord,
    s: ContractPackageRecord,
)
    requires
        describes(p, r),
        describes(q, s),
        versions_ascending(r.active_versions@),
        versions_ascending(s.active_versions@),
        keys_ascending(r.removed_versions@),
        keys_ascending(s.removed_versions@),
        forall|k: ContractVersionKey| q.is_active(k) == p.is_active(k),
        forall|k: ContractVersionKey| p.is_active(k) ==> q.active_hash(k) == p.active_hash(k),
        forall|k: ContractVersionKey| q.is_removed(k) == p.is_removed(k),
        q.spec_groups() == p.spec_groups(),
    ensures
        r.active_versions@ == s.active_versions@,
        r.removed_versions@ == s.removed_versions@,
        groups_view(r.groups@) == groups_view(s.groups@),
{
    assert forall|x: (ContractVersionKey, Addr)|
        r.active_versions@.contains(x) <==> s.active_versions@.contains(x) by {
        if p.is_active(x.0) {
            assert(q.active_hash(x.0) == p.active_hash(x.0));
        }
    }
    lemma_ascending_unique(r.active_versions@, s.active_versions@);
    assert forall|k: ContractVersionKey|
        r.removed_versions@.contains(k) <==> s.removed_versions@.contains(k) by {
        assert(q.is_removed(k) == p.is_removed(k));
    }
    lemma_ascending_unique(r.removed_versions@, s.removed_versions@);
}

/// A group-gated entry point with no groups is sealed: no caller may invoke it.
pub proof fn lemma_empty_groups_sealed(p: &ContractPackage, ep: &EntryPoint, caller: Seq<URef>)
    requires
        ep.access matches EntryPointAccess::Groups(names) && names@.len() == 0,
    ensures
        !p.spec_may_invoke(ep, caller),
{
}

} // verus!
