//! Transform sets and the persistent snapshot store they are committed into.
use vstd::prelude::*;
use crate::address::Key;
use crate::transform::{Transform, Value};

verus! {

/// The effects of one execution: at most one transform per key.
pub struct TransformSet {
    entries: Vec<(Key, Transform)>,
}

pub open spec fn keys_unique(s: Seq<(Key, Transform)>) -> bool {
    forall|i: int, j: int| 0 <= i < j < s.len() ==> s[i].0 != s[j].0
}

pub open spec fn keys_normalized(s: Seq<(Key, Transform)>) -> bool {
    forall|i: int| 0 <= i < s.len() ==> #[trigger] s[i].0 == s[i].0.spec_normalize()
}

pub open spec fn entries_get(s: Seq<(Key, Transform)>, k: Key) -> Option<Transform> {
    if exists|j: int| 0 <= j < s.len() && s[j].0 == k {
        let j = choose|j: int| 0 <= j < s.len() && s[j].0 == k;
        Some(s[j].1)
    } else {
        None
    }
}

proof fn lemma_entries_get_at(s: Seq<(Key, Transform)>, j: int)
    requires
        keys_unique(s),
        0 <= j < s.len(),
    ensures
        entries_get(s, s[j].0) == Some(s[j].1),
{
}

/// Changing or adding the entry of one key leaves what every other key gets.
proof fn lemma_entries_get_other(before: Seq<(Key, Transform)>, after: Seq<(Key, Transform)>, k: Key)
    requires
        keys_unique(before),
        keys_unique(after),
        before.len() <= after.len(),
        forall|j: int|
            0 <= j < before.len() ==> before[j].0 == after[j].0 && (before[j].0 != k ==> after[j]
                == before[j]),
        forall|j: int| before.len() <= j < after.len() ==> after[j].0 == k,
    ensures
        forall|k2: Key| k2 != k ==> entries_get(after, k2) == entries_get(before, k2),
{
    assert forall|k2: Key| k2 != k implies entries_get(after, k2) == entries_get(before, k2) by {
        if exists|j: int| 0 <= j < before.len() && before[j].0 == k2 {
            let j = choose|j: int| 0 <= j < before.len() && before[j].0 == k2;
            lemma_entries_get_at(before, j);
            lemma_entries_get_at(after, j);
        } else {
            assert(!exists|j: int| 0 <= j < after.len() && after[j].0 == k2);
        }
    }
}

/// The transform recorded for a key after `next` is recorded on top of `prev`.
pub open spec fn recorded(prev: Option<Transform>, next: Transform) -> Transform {
    match prev {
        None => next,
        Some(p) => p.spec_compose(next),
    }
}

impl TransformSet {
    pub closed spec fn wf(&self) -> bool {
        &&& keys_unique(self.entries@)
        &&& keys_normalized(self.entries@)
    }

    /// The recorded transforms, by key.
    pub closed spec fn view(&self) -> Map<Key, Transform> {
        Map::new(|k: Key| entries_get(self.entries@, k) is Some, |k: Key| entries_get(self.entries@, k)->Some_0)
    }

    /// The transform recorded for `k`, if any.
    pub open spec fn spec_get(&self, k: Key) -> Option<Transform> {
        if self@.contains_key(k) {
            Some(self@[k])
        } else {
            None
        }
    }

    pub closed spec fn spec_len(&self) -> nat {
        self.entries@.len()
    }

    pub fn new() -> (r: TransformSet)
        ensures
            r.wf(),
            r.spec_len() == 0,
            r@ == Map::<Key, Transform>::empty(),
    {
        let r = TransformSet { entries: Vec::new() };
        assert(r@ =~= Map::<Key, Transform>::empty());
        r
    }

    pub fn len(&self) -> (r: usize)
        ensures
            r == self.spec_len(),
    {
        self.entries.len()
    }

    /// The transform recorded for the storage address of `k`.
    pub fn get(&self, k: &Key) -> (r: Option<Transform>)
        requires
            self.wf(),
        ensures
            r == self.spec_get(k.spec_normalize()),
    {
        self.get_at(&k.normalize())
    }

    fn get_at(&self, k: &Key) -> (r: Option<Transform>)
        requires
            self.wf(),
        ensures
            r == self.spec_get(*k),
    {
        let mut i: usize = 0;
        while i < self.entries.len()
            invariant
                i <= self.entries@.len(),
                forall|j: int| 0 <= j < i ==> self.entries@[j].0 != *k,
                keys_unique(self.entries@),
            decreases self.entries@.len() - i,
        {
            if self.entries[i].0 == *k {
                proof {
                    lemma_entries_get_at(self.entries@, i as int);
                }
                return Some(self.entries[i].1);
            }
            i = i + 1;
        }
        None
    }

    /// Records `t` on the storage address of `k`, composed after whatever was recorded
    /// there before.
    pub fn record(&mut self, k: Key, t: Transform)
        requires
            old(self).wf(),
        ensures
            final(self).wf(),
            final(self)@ == old(self)@.insert(
                k.spec_normalize(),
                recorded(old(self).spec_get(k.spec_normalize()), t),
            ),
    {
        self.record_at(k.normalize(), t)
    }

    fn record_at(&mut self, k: Key, t: Transform)
        requires
            old(self).wf(),
            k == k.spec_normalize(),
        ensures
            final(self).wf(),
            final(self)@ == old(self)@.insert(k, recorded(old(self).spec_get(k), t)),
    {
        let mut i: usize = 0;
        while i < self.entries.len()
            invariant
                i <= self.entries@.len(),
                forall|j: int| 0 <= j < i ==> self.entries@[j].0 != k,
                self.entries@ == old(self).entries@,
                keys_unique(self.entries@),
                keys_normalized(self.entries@),
                k == k.spec_normalize(),
            decreases self.entries@.len() - i,
        {
            if self.entries[i].0 == k {
                let prev = self.entries[i].1;
                proof {
                    lemma_entries_get_at(self.entries@, i as int);
                }
                let ghost before = self.entries@;
                let composed = prev.compose(&t);
                self.entries.set(i, (k, composed));
                proof {
                    let after = self.entries@;
                    assert(keys_unique(after));
                    lemma_entries_get_at(after, i as int);
                    lemma_entries_get_other(before, after, k);
                    assert(self@ =~= old(self)@.insert(k, recorded(old(self).spec_get(k), t)));
                }
                return;
            }
            i = i + 1;
        }
        let ghost before = self.entries@;
        self.entries.push((k, t));
        proof {
            let after = self.entries@;
            assert(keys_unique(after));
            assert(!exists|j: int| 0 <= j < before.len() && before[j].0 == k);
            lemma_entries_get_at(after, before.len() as int);
            lemma_entries_get_other(before, after, k);
            assert(self@ =~= old(self)@.insert(k, recorded(old(self).spec_get(k), t)));
        }
    }
}

/// Identifies one immutable snapshot of global state held by a [`GlobalStore`].
#[derive(Clone, Copy, Debug, PartialEq, Eq, Structural, PartialOrd, Ord, Hash)]
pub struct Root {
    pub id: usize,
}

#[derive(Clone, Copy, Debug, PartialEq, Eq, Structural)]
pub enum StoreError {
    /// The root names no snapshot of this store.
    RootNotFound,
}

/// One node of the store: the values written by one commit, on top of its parent.
struct Node {
    parent: Option<usize>,
    writes: Vec<(Key, Value)>,
}

/// The last value written to `k` in `w`.
pub open spec fn writes_lookup(w: Seq<(Key, Value)>, k: Key) -> Option<Value>
    decreases w.len(),
{
    if w.len() == 0 {
        None
    } else if w.last().0 == k {
        Some(w.last().1)
    } else {
        writes_lookup(w.drop_last(), k)
    }
}

spec fn node_lookup(nodes: Seq<Node>, i: int, k: Key) -> Option<Value>
    decreases i,
{
    if 0 <= i < nodes.len() {
        match writes_lookup(nodes[i].writes@, k) {
            Some(v) => Some(v),
            None => match nodes[i].parent {
                Some(p) => if p < i {
                    node_lookup(nodes, p as int, k)
                } else {
                    None
                },
                None => None,
            },
        }
    } else {
        None
    }
}

proof fn lemma_node_lookup_push(nodes: Seq<Node>, n: Node, i: int, k: Key)
    requires
        0 <= i < nodes.len(),
    ensures
        node_lookup(nodes.push(n), i, k) == node_lookup(nodes, i, k),
    decreases i,
{
    assert(nodes.push(n)[i] == nodes[i]);
    match nodes[i].parent {
        Some(p) => if p < i {
            lemma_node_lookup_push(nodes, n, p as int, k);
        },
        None => {},
    }
}

/// The value a key holds once a transform set whose entry for it is `t` is committed
/// onto `cur`. A transform that does not apply leaves the value as it was: its failure
/// belongs to the execution that produced it.
pub open spec fn committed_value(t: Option<Transform>, cur: Option<Value>) -> Option<Value> {
    match t {
        None => cur,
        Some(t) => match t.spec_apply(cur) {
            Ok(v) => v,
            Err(_) => cur,
        },
    }
}

spec fn written_value(t: Option<Transform>, cur: Option<Value>) -> Option<Value> {
    match t {
        None => None,
        Some(t) => match t.spec_apply(cur) {
            Ok(Some(v)) => Some(v),
            _ => None,
        },
    }
}

fn find_in_writes(w: &Vec<(Key, Value)>, k: &Key) -> (r: Option<Value>)
    ensures
        r == writes_lookup(w@, *k),
{
    let mut i: usize = w.len();
    assert(w@.take(w@.len() as int) == w@);
    while i > 0
        invariant
            i <= w@.len(),
            writes_lookup(w@, *k) == writes_lookup(w@.take(i as int), *k),
        decreases i,
    {
        let ghost prefix = w@.take(i as int);
        assert(prefix.drop_last() == w@.take(i - 1));
        if w[i - 1].0 == *k {
            return Some(w[i - 1].1);
        }
        i = i - 1;
    }
    assert(w@.take(0).len() == 0);
    None
}

/// A persistent store of snapshots. Every commit adds one node holding what it wrote
/// and shares everything else with the snapshot it was made on; no node is ever changed
/// after it was added, so every root stays readable as it was.
pub struct GlobalStore {
    nodes: Vec<Node>,
}

impl GlobalStore {
    pub closed spec fn has_root(&self, r: Root) -> bool {
        r.id < self.nodes@.len()
    }

    /// The value of `k` in the snapshot `r`.
    pub closed spec fn lookup(&self, r: Root, k: Key) -> Option<Value> {
        node_lookup(self.nodes@, r.id as int, k)
    }

    /// A store holding one snapshot, the empty state.
    pub fn new() -> (r: (GlobalStore, Root))
        ensures
            r.0.has_root(r.1),
            forall|k: Key| r.0.lookup(r.1, k) is None,
    {
        let mut nodes: Vec<Node> = Vec::new();
        nodes.push(Node { parent: None, writes: Vec::new() });
        let s = GlobalStore { nodes };
        proof {
            assert forall|k: Key| s.lookup(Root { id: 0 }, k) is None by {
                assert(s.nodes@[0].writes@.len() == 0);
            }
        }
        (s, Root { id: 0 })
    }

    pub fn contains_root(&self, r: Root) -> (b: bool)
        ensures
            b == self.has_root(r),
    {
        r.id < self.nodes.len()
    }

    /// The value at the storage address of `k` in the snapshot `root`; `None` where it is
    /// unset or the root is unknown.
    pub fn read(&self, root: Root, k: &Key) -> (r: Option<Value>)
        ensures
            r == self.lookup(root, k.spec_normalize()),
            !self.has_root(root) ==> r is None,
    {
        self.read_at(root, &k.normalize())
    }

    fn read_at(&self, root: Root, k: &Key) -> (r: Option<Value>)
        ensures
            r == self.lookup(root, *k),
    {
        if root.id >= self.nodes.len() {
            return None;
        }
        let mut cur: usize = root.id;
        loop
            invariant
                cur < self.nodes@.len(),
                node_lookup(self.nodes@, root.id as int, *k) == node_lookup(
                    self.nodes@,
                    cur as int,
                    *k,
                ),
            decreases cur,
        {
            let found = find_in_writes(&self.nodes[cur].writes, k);
            if found.is_some() {
                return found;
            }
            match self.nodes[cur].parent {
                Some(p) => {
                    if p < cur {
                        cur = p;
                    } else {
                        return None;
                    }
                },
                None => {
                    return None;
                },
            }
        }
    }

    /// Commits `ts` onto the snapshot `root` and returns the new snapshot's root. Either
    /// the whole set is applied or, on an error, the store is left as it was. No snapshot
    /// that existed before changes.
    pub fn commit(&mut self, root: Root, ts: &TransformSet) -> (r: Result<Root, StoreError>)
        requires
            ts.wf(),
        ensures
            forall|r0: Root| old(self).has_root(r0) ==> final(self).has_root(r0),
            forall|r0: Root, k: Key|
                old(self).has_root(r0) ==> final(self).lookup(r0, k) == old(self).lookup(r0, k),
            match r {
                Ok(nr) => {
                    &&& old(self).has_root(root)
                    &&& final(self).has_root(nr)
                    &&& !old(self).has_root(nr)
                    &&& forall|k: Key|
                        final(self).lookup(nr, k) == committed_value(
                            ts.spec_get(k),
                            old(self).lookup(root, k),
                        )
                },
                Err(e) => {
                    &&& e == StoreError::RootNotFound
                    &&& !old(self).has_root(root)
                    &&& forall|r0: Root| final(self).has_root(r0) == old(self).has_root(r0)
                },
            },
    {
        if root.id >= self.nodes.len() {
            return Err(StoreError::RootNotFound);
        }
        let mut writes: Vec<(Key, Value)> = Vec::new();
        let n = ts.entries.len();
        let mut i: usize = 0;
        while i < n
            invariant
                n == ts.entries@.len(),
                keys_unique(ts.entries@),
                keys_normalized(ts.entries@),
                i <= n,
                root.id < self.nodes@.len(),
                self.nodes@ == old(self).nodes@,
                forall|k: Key|
                    writes_lookup(writes@, k) == written_value(
                        entries_get(ts.entries@.take(i as int), k),
                        node_lookup(self.nodes@, root.id as int, k),
                    ),
            decreases n - i,
        {
            let (k, t) = ts.entries[i];
            let cur = self.read_at(root, &k);
            let res = t.apply(cur);
            let ghost before = writes@;
            match res {
                Ok(Some(v)) => {
                    writes.push((k, v));
                },
                _ => {},
            }
            proof {
                let pre = ts.entries@.take(i as int);
                let post = ts.entries@.take(i + 1);
                assert forall|k2: Key|
                    writes_lookup(writes@, k2) == written_value(
                        entries_get(post, k2),
                        node_lookup(self.nodes@, root.id as int, k2),
                    ) by {
                    assert(ts.entries@[i as int] == (k, t));
                    if k2 == k {
                        assert(post[i as int] == ts.entries@[i as int]);
                        assert(keys_unique(post));
                        lemma_entries_get_at(post, i as int);
                        assert(!exists|j: int| 0 <= j < pre.len() && pre[j].0 == k2);
                        assert(entries_get(pre, k2) is None);
                        assert(entries_get(post, k2) == Some(t));
                        assert(res == t.spec_apply(node_lookup(self.nodes@, root.id as int, k2)));
                        if writes@.len() > before.len() {
                            assert(writes@.drop_last() == before);
                            assert(writes@.last().0 == k2);
                        }
                    } else {
                        if writes@.len() > before.len() {
                            assert(writes@.drop_last() == before);
                        }
                        if exists|j: int| 0 <= j < pre.len() && pre[j].0 == k2 {
                            let j = choose|j: int| 0 <= j < pre.len() && pre[j].0 == k2;
                            assert(keys_unique(pre));
                            assert(keys_unique(post));
                            assert(pre[j] == post[j]);
                            lemma_entries_get_at(pre, j);
                            lemma_entries_get_at(post, j);
                            assert(entries_get(pre, k2) == entries_get(post, k2));
                        } else {
                            assert(entries_get(pre, k2) is None);
                            assert forall|j: int| 0 <= j < post.len() implies post[j].0 != k2 by {
                                if j < i {
                                    assert(pre[j] == post[j]);
                                }
                            }
                            assert(entries_get(post, k2) is None);
                        }
                        assert(writes_lookup(writes@, k2) == writes_lookup(before, k2));
                    }
                }
            }
            i = i + 1;
        }
        let ghost old_nodes = self.nodes@;
        let id = self.nodes.len();
        self.nodes.push(Node { parent: Some(root.id), writes });
        proof {
            assert(ts.entries@.take(n as int) == ts.entries@);
            assert forall|r0: Root, k: Key| r0.id < old_nodes.len() implies node_lookup(
                self.nodes@,
                r0.id as int,
                k,
            ) == node_lookup(old_nodes, r0.id as int, k) by {
                lemma_node_lookup_push(old_nodes, self.nodes@[id as int], r0.id as int, k);
            }
            assert forall|k: Key|
                node_lookup(self.nodes@, id as int, k) == committed_value(
                    ts.spec_get(k),
                    node_lookup(old_nodes, root.id as int, k),
                ) by {
                lemma_node_lookup_push(old_nodes, self.nodes@[id as int], root.id as int, k);
            }
        }
        Ok(Root { id })
    }
}

} // verus!
