//! Storable values and the transform algebra: how one effect applies to a value and how
//! two effects on one key compose.
use vstd::prelude::*;
use vstd::arithmetic::div_mod::lemma_add_mod_noop_right;
use crate::address::{Addr, Key, URef};

verus! {

/// An account record: its identity and its main purse.
#[derive(Clone, Copy, Debug, PartialEq, Eq, Structural)]
pub struct Account {
    pub addr: Addr,
    pub main_purse: URef,
}

/// What global state can hold.
#[derive(Clone, Copy, Debug, PartialEq, Eq, Structural)]
pub enum Value {
    Unit,
    Bool(bool),
    U64(u64),
    U128(u128),
    Key(Key),
    Account(Account),
}

#[derive(Clone, Copy, Debug, PartialEq, Eq, Structural)]
pub enum TransformError {
    /// An addition met a value that is not a number of the delta's width.
    TypeMismatch,
}

/// The effect of one or more operations on one key.
#[derive(Clone, Copy, Debug, PartialEq, Eq, Structural)]
pub enum Transform {
    Identity,
    Write(Value),
    AddU64(u64),
    AddU128(u128),
    Failure(TransformError),
}

pub open spec fn wrap64(x: int) -> u64 {
    (x % (u64::MAX as int + 1)) as u64
}

pub open spec fn wrap128(x: int) -> u128 {
    (x % (u128::MAX as int + 1)) as u128
}

impl Transform {
    /// The result of this transform on the current value of a key (`None`: the key is
    /// unset). An addition onto an unset key adds onto zero. An addition applies only to a
    /// number of its own width: with a wider target, adding two deltas one after the other
    /// and adding their wrapped sum would differ, and composition would no longer agree
    /// with applying transforms in turn.
    pub open spec fn spec_apply(self, cur: Option<Value>) -> Result<Option<Value>, TransformError> {
        match self {
            Transform::Identity => Ok(cur),
            Transform::Write(v) => Ok(Some(v)),
            Transform::AddU64(d) => match cur {
                None => Ok(Some(Value::U64(d))),
                Some(Value::U64(x)) => Ok(Some(Value::U64(wrap64(x + d)))),
                Some(_) => Err(TransformError::TypeMismatch),
            },
            Transform::AddU128(d) => match cur {
                None => Ok(Some(Value::U128(d))),
                Some(Value::U128(x)) => Ok(Some(Value::U128(wrap128(x + d)))),
                Some(_) => Err(TransformError::TypeMismatch),
            },
            Transform::Failure(e) => Err(e),
        }
    }

    /// `self` followed by `next`, as one transform.
    pub open spec fn spec_compose(self, next: Transform) -> Transform {
        match (self, next) {
            (Transform::Failure(e), _) => Transform::Failure(e),
            (_, Transform::Failure(e)) => Transform::Failure(e),
            (Transform::Identity, t) => t,
            (t, Transform::Identity) => t,
            (_, Transform::Write(v)) => Transform::Write(v),
            (Transform::Write(Value::U64(x)), Transform::AddU64(d)) => Transform::Write(
                Value::U64(wrap64(x + d)),
            ),
            (Transform::Write(Value::U128(x)), Transform::AddU128(d)) => Transform::Write(
                Value::U128(wrap128(x + d)),
            ),
            (Transform::AddU64(a), Transform::AddU64(b)) => Transform::AddU64(wrap64(a + b)),
            (Transform::AddU128(a), Transform::AddU128(b)) => Transform::AddU128(wrap128(a + b)),
            _ => Transform::Failure(TransformError::TypeMismatch),
        }
    }

    pub open spec fn is_add(self) -> bool {
        self is AddU64 || self is AddU128
    }

    pub fn apply(&self, cur: Option<Value>) -> (r: Result<Option<Value>, TransformError>)
        ensures
            r == self.spec_apply(cur),
    {
        match self {
            Transform::Identity => Ok(cur),
            Transform::Write(v) => Ok(Some(*v)),
            Transform::AddU64(d) => match cur {
                None => Ok(Some(Value::U64(*d))),
                Some(Value::U64(x)) => Ok(Some(Value::U64(x.wrapping_add(*d)))),
                Some(_) => Err(TransformError::TypeMismatch),
            },
            Transform::AddU128(d) => match cur {
                None => Ok(Some(Value::U128(*d))),
                Some(Value::U128(x)) => Ok(Some(Value::U128(x.wrapping_add(*d)))),
                Some(_) => Err(TransformError::TypeMismatch),
            },
            Transform::Failure(e) => Err(*e),
        }
    }

    pub fn compose(&self, next: &Transform) -> (r: Transform)
        ensures
            r == self.spec_compose(*next),
    {
        match (self, next) {
            (Transform::Failure(e), _) => Transform::Failure(*e),
            (_, Transform::Failure(e)) => Transform::Failure(*e),
            (Transform::Identity, t) => *t,
            (t, Transform::Identity) => *t,
            (_, Transform::Write(v)) => Transform::Write(*v),
            (Transform::Write(Value::U64(x)), Transform::AddU64(d)) => Transform::Write(
                Value::U64(x.wrapping_add(*d)),
            ),
            (Transform::Write(Value::U128(x)), Transform::AddU128(d)) => Transform::Write(
                Value::U128(x.wrapping_add(*d)),
            ),
            (Transform::AddU64(a), Transform::AddU64(b)) => Transform::AddU64(a.wrapping_add(*b)),
            (Transform::AddU128(a), Transform::AddU128(b)) => Transform::AddU128(
                a.wrapping_add(*b),
            ),
            _ => Transform::Failure(TransformError::TypeMismatch),
        }
    }
}

/// `first` applied to `cur`, then `second` applied to what came out.
pub open spec fn apply_then(first: Transform, second: Transform, cur: Option<Value>) -> Result<
    Option<Value>,
    TransformError,
> {
    match first.spec_apply(cur) {
        Ok(mid) => second.spec_apply(mid),
        Err(e) => Err(e),
    }
}

proof fn lemma_wrap_assoc(y: int, a: int, b: int, m: int)
    requires
        0 < m,
    ensures
        ((y + a) % m + b) % m == (y + (a + b) % m) % m,
        ((y + a) % m + b) % m == ((y + b) % m + a) % m,
{
    lemma_add_mod_noop_right(b, y + a, m);
    lemma_add_mod_noop_right(y, a + b, m);
    lemma_add_mod_noop_right(a, y + b, m);
    assert(b + (y + a) == y + (a + b));
    assert(a + (y + b) == y + (a + b));
}

proof fn lemma_wrap64_assoc(y: u64, a: u64, b: u64)
    ensures
        wrap64(wrap64(y + a) + b) == wrap64(y + wrap64(a + b)),
        wrap64(wrap64(y + a) + b) == wrap64(wrap64(y + b) + a),
{
    lemma_wrap_assoc(y as int, a as int, b as int, (u64::MAX as int + 1));
}

proof fn lemma_wrap128_assoc(y: u128, a: u128, b: u128)
    ensures
        wrap128(wrap128(y + a) + b) == wrap128(y + wrap128(a + b)),
        wrap128(wrap128(y + a) + b) == wrap128(wrap128(y + b) + a),
{
    lemma_wrap_assoc(y as int, a as int, b as int, (u128::MAX as int + 1));
}

/// Composing two transforms and applying the result is the same as applying them one
/// after the other, wherever the first one applies.
pub proof fn lemma_compose_apply(t1: Transform, t2: Transform, cur: Option<Value>)
    requires
        t1.spec_apply(cur) is Ok,
    ensures
        t1.spec_compose(t2).spec_apply(cur) == apply_then(t1, t2, cur),
{
    match (t1, t2, cur) {
        (Transform::AddU64(a), Transform::AddU64(b), Some(Value::U64(y))) => {
            lemma_wrap64_assoc(y, a, b);
        },
        (Transform::AddU128(a), Transform::AddU128(b), Some(Value::U128(y))) => {
            lemma_wrap128_assoc(y, a, b);
        },
        _ => {},
    }
}

/// Two additions on one key give the same stored value in either order, and compose to
/// the same transform.
pub proof fn lemma_add_commutes(t1: Transform, t2: Transform, cur: Option<Value>)
    requires
        t1.is_add(),
        t2.is_add(),
    ensures
        apply_then(t1, t2, cur) == apply_then(t2, t1, cur),
        t1.spec_compose(t2) == t2.spec_compose(t1),
{
    match (t1, t2) {
        (Transform::AddU64(a), Transform::AddU64(b)) => lemma_add64_commutes(a, b, cur),
        (Transform::AddU128(a), Transform::AddU128(b)) => lemma_add128_commutes(a, b, cur),
        _ => lemma_mixed_adds_fail(t1, t2, cur),
    }
}

proof fn lemma_add64_commutes(a: u64, b: u64, cur: Option<Value>)
    ensures
        apply_then(Transform::AddU64(a), Transform::AddU64(b), cur) == apply_then(
            Transform::AddU64(b),
            Transform::AddU64(a),
            cur,
        ),
        Transform::AddU64(a).spec_compose(Transform::AddU64(b)) == Transform::AddU64(
            b,
        ).spec_compose(Transform::AddU64(a)),
{
    assert(a + b == b + a);
    if let Some(Value::U64(y)) = cur {
        lemma_wrap64_assoc(y, a, b);
    }
}

proof fn lemma_add128_commutes(a: u128, b: u128, cur: Option<Value>)
    ensures
        apply_then(Transform::AddU128(a), Transform::AddU128(b), cur) == apply_then(
            Transform::AddU128(b),
            Transform::AddU128(a),
            cur,
        ),
        Transform::AddU128(a).spec_compose(Transform::AddU128(b)) == Transform::AddU128(
            b,
        ).spec_compose(Transform::AddU128(a)),
{
    assert(a + b == b + a);
    if let Some(Value::U128(y)) = cur {
        lemma_wrap128_assoc(y, a, b);
    }
}

proof fn lemma_mixed_adds_fail(t1: Transform, t2: Transform, cur: Option<Value>)
    requires
        (t1 is AddU64 && t2 is AddU128) || (t1 is AddU128 && t2 is AddU64),
    ensures
        apply_then(t1, t2, cur) == Err::<Option<Value>, TransformError>(TransformError::TypeMismatch),
        apply_then(t2, t1, cur) == Err::<Option<Value>, TransformError>(TransformError::TypeMismatch),
        t1.spec_compose(t2) == t2.spec_compose(t1),
{
}

/// Composition of additions is associative.
pub proof fn lemma_add_compose_assoc(t1: Transform, t2: Transform, t3: Transform)
    requires
        t1.is_add(),
        t2.is_add(),
        t3.is_add(),
    ensures
        t1.spec_compose(t2).spec_compose(t3) == t1.spec_compose(t2.spec_compose(t3)),
{
    match (t1, t2, t3) {
        (Transform::AddU64(a), Transform::AddU64(b), Transform::AddU64(c)) => {
            lemma_wrap64_assoc(a, b, c);
        },
        (Transform::AddU128(a), Transform::AddU128(b), Transform::AddU128(c)) => {
            lemma_wrap128_assoc(a, b, c);
        },
        _ => {},
    }
}

/// A write overrides whatever came before it in the same execution, short of a failure.
pub proof fn lemma_write_overrides(t: Transform, v: Value)
    requires
        !(t is Failure),
    ensures
        t.spec_compose(Transform::Write(v)) == Transform::Write(v),
{
}

/// A failure is sticky: nothing composed after it undoes it.
pub proof fn lemma_failure_sticky(e: TransformError, t: Transform)
    ensures
        Transform::Failure(e).spec_compose(t) == Transform::Failure(e),
{
}

} // verus!
