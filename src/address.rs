//! Addresses into global state: keys, unforgeable references and their access rights,
//! and local keys derived from a seed.
use vstd::prelude::*;

verus! {

/// A 32-byte address, held as two 128-bit halves.
#[derive(Clone, Copy, Debug, PartialEq, Eq, Structural, PartialOrd, Ord, Hash)]
pub struct Addr {
    pub hi: u128,
    pub lo: u128,
}

impl Addr {
    pub fn new(hi: u128, lo: u128) -> (r: Addr)
        ensures
            r.hi == hi,
            r.lo == lo,
    {
        Addr { hi, lo }
    }
}

/// The capability bits carried by a URef.
#[derive(Clone, Copy, Debug, PartialEq, Eq, Structural, PartialOrd, Ord, Hash)]
pub struct AccessRights {
    pub read: bool,
    pub write: bool,
    pub add: bool,
}

impl AccessRights {
    pub open spec fn spec_none() -> AccessRights {
        AccessRights { read: false, write: false, add: false }
    }

    pub fn none() -> (r: AccessRights)
        ensures
            r == AccessRights::spec_none(),
    {
        AccessRights { read: false, write: false, add: false }
    }

    pub fn read_only() -> (r: AccessRights)
        ensures
            r.read && !r.write && !r.add,
    {
        AccessRights { read: true, write: false, add: false }
    }

    pub fn write_only() -> (r: AccessRights)
        ensures
            !r.read && r.write && !r.add,
    {
        AccessRights { read: false, write: true, add: false }
    }

    pub fn add_only() -> (r: AccessRights)
        ensures
            !r.read && !r.write && r.add,
    {
        AccessRights { read: false, write: false, add: true }
    }

    pub fn read_write() -> (r: AccessRights)
        ensures
            r.read && r.write && !r.add,
    {
        AccessRights { read: true, write: true, add: false }
    }

    pub fn read_add_write() -> (r: AccessRights)
        ensures
            r.read && r.write && r.add,
    {
        AccessRights { read: true, write: true, add: true }
    }

    /// The union of two sets of rights.
    pub open spec fn spec_union(self, other: AccessRights) -> AccessRights {
        AccessRights {
            read: self.read || other.read,
            write: self.write || other.write,
            add: self.add || other.add,
        }
    }

    /// Every right of `self` is also held by `other`.
    pub open spec fn spec_subset_of(self, other: AccessRights) -> bool {
        (self.read ==> other.read) && (self.write ==> other.write) && (self.add ==> other.add)
    }

    pub fn union(&self, other: &AccessRights) -> (r: AccessRights)
        ensures
            r == self.spec_union(*other),
    {
        AccessRights {
            read: self.read || other.read,
            write: self.write || other.write,
            add: self.add || other.add,
        }
    }

    pub fn is_subset_of(&self, other: &AccessRights) -> (r: bool)
        ensures
            r == self.spec_subset_of(*other),
    {
        (!self.read || other.read) && (!self.write || other.write) && (!self.add || other.add)
    }

    pub fn is_readable(&self) -> (r: bool)
        ensures
            r == self.read,
    {
        self.read
    }

    pub fn is_writeable(&self) -> (r: bool)
        ensures
            r == self.write,
    {
        self.write
    }

    pub fn is_addable(&self) -> (r: bool)
        ensures
            r == self.add,
    {
        self.add
    }
}

/// An unforgeable reference: an address together with the rights its holder has on it.
#[derive(Clone, Copy, Debug, PartialEq, Eq, Structural, PartialOrd, Ord, Hash)]
pub struct URef {
    pub addr: Addr,
    pub rights: AccessRights,
}

impl URef {
    /// The same address with rights narrowed to `rights`; narrowing never adds a right.
    pub fn with_rights(&self, rights: &AccessRights) -> (r: URef)
        ensures
            r.addr == self.addr,
            r.rights.read == (self.rights.read && rights.read),
            r.rights.write == (self.rights.write && rights.write),
            r.rights.add == (self.rights.add && rights.add),
    {
        URef {
            addr: self.addr,
            rights: AccessRights {
                read: self.rights.read && rights.read,
                write: self.rights.write && rights.write,
                add: self.rights.add && rights.add,
            },
        }
    }
}

/// An address into global state.
#[derive(Clone, Copy, Debug, PartialEq, Eq, Structural, PartialOrd, Ord, Hash)]
pub enum Key {
    Account(Addr),
    Hash(Addr),
    URef(URef),
    /// A slot derived from a seed (usually a contract's own address) and a discriminator.
    Local { seed: Addr, id: Addr },
}

impl Key {
    pub open spec fn spec_normalize(self) -> Key {
        match self {
            Key::URef(u) => Key::URef(URef { addr: u.addr, rights: AccessRights::spec_none() }),
            _ => self,
        }
    }

    /// The storage address of a key: a URef key loses its rights, other keys stay as they are.
    pub fn normalize(&self) -> (r: Key)
        ensures
            r == self.spec_normalize(),
    {
        match self {
            Key::URef(u) => Key::URef(URef { addr: u.addr, rights: AccessRights::none() }),
            _ => *self,
        }
    }

    pub open spec fn spec_local(seed: Addr, id: Addr) -> Key {
        Key::Local { seed, id }
    }

    /// The local key of `id` under `seed`.
    pub fn local(seed: Addr, id: Addr) -> (r: Key)
        ensures
            r == Key::spec_local(seed, id),
    {
        Key::Local { seed, id }
    }
}

/// Two URef keys that differ only in their rights name the same storage slot.
pub proof fn lemma_normalize_ignores_rights(u: URef, v: URef)
    requires
        u.addr == v.addr,
    ensures
        Key::URef(u).spec_normalize() == Key::URef(v).spec_normalize(),
{
}

/// Normalizing a key twice is the same as normalizing it once.
pub proof fn lemma_normalize_idempotent(k: Key)
    ensures
        k.spec_normalize().spec_normalize() == k.spec_normalize(),
{
}

/// Local-key derivation is deterministic and sends distinct (seed, discriminator)
/// pairs to distinct keys.
pub proof fn lemma_local_injective(s1: Addr, i1: Addr, s2: Addr, i2: Addr)
    ensures
        (Key::spec_local(s1, i1) == Key::spec_local(s2, i2)) == (s1 == s2 && i1 == i2),
{
}

} // verus!
