//! Prefix tree from string keys to values, for name lookup and prefix search.
use vstd::prelude::*;
use vstd::string::*;

use crate::text::chars_of;

verus! {

/// `p` is a prefix of `k`.
pub open spec fn has_prefix(k: Seq<char>, p: Seq<char>) -> bool {
    p.len() <= k.len() && k.subrange(0, p.len() as int) == p
}

proof fn lemma_prefix_trans(a: Seq<char>, b: Seq<char>, c: Seq<char>)
    requires
        has_prefix(a, b),
        has_prefix(b, c),
    ensures
        has_prefix(a, c),
{
    assert(a.subrange(0, c.len() as int) =~= b.subrange(0, c.len() as int));
}

proof fn lemma_prefix_push(k: Seq<char>, c: char)
    ensures
        has_prefix(k.push(c), k),
        k.push(c).len() == k.len() + 1,
        !has_prefix(k, k.push(c)),
{
    assert(k.push(c).subrange(0, k.len() as int) =~= k);
}

/// One node of the arena: its full key if a key ends here, the key spelled
/// by the path to it, and its outgoing edges, one per next character.
struct TrieNode {
    children: Vec<(char, usize)>,
    key: Option<String>,
    path: Ghost<Seq<char>>,
}

/// A prefix tree mapping string keys to values.
///
/// Nodes live in an arena, with their values in a parallel vector; node 0
/// is the root, with the empty key. A node
/// where a key ends stores that key, so that keys need not be rebuilt when
/// entries are listed. Removing a key clears its value and keeps its nodes.
pub struct Trie<V> {
    nodes: Vec<TrieNode>,
    values: Vec<Option<V>>,
    len: usize,
    ids: Ghost<Map<Seq<char>, int>>,
}

impl<V> Default for Trie<V> {
    fn default() -> (r: Self)
        ensures
            r.wf(),
            r@ == Map::<Seq<char>, V>::empty(),
    {
        Trie::new()
    }
}

impl<V> Trie<V> {
    /// The key of node `i`.
    pub closed spec fn key_of(&self, i: int) -> Seq<char> {
        self.nodes@[i].path@
    }

    /// The edges out of node `i`.
    pub closed spec fn edges(&self, i: int) -> Seq<(char, usize)> {
        self.nodes@[i].children@
    }

    /// The contents: each key with its value.
    pub closed spec fn view(&self) -> Map<Seq<char>, V> {
        Map::new(
            |k: Seq<char>| self.ids@.contains_key(k) && self.values@[self.ids@[k]] is Some,
            |k: Seq<char>| self.values@[self.ids@[k]]->Some_0,
        )
    }

    /// The arena is a tree that spells its keys.
    pub closed spec fn wf(&self) -> bool {
        &&& self.nodes@.len() >= 1
        &&& self.values@.len() == self.nodes@.len()
        &&& self.key_of(0) == Seq::<char>::empty()
        &&& self.ids@.dom().finite()
        &&& self.ids@.dom().len() == self.nodes@.len()
        &&& forall|i: int|
            0 <= i < self.nodes@.len() ==> #[trigger] self.ids@.contains_key(self.key_of(i))
                && self.ids@[self.key_of(i)] == i
        &&& forall|k: Seq<char>|
            #[trigger] self.ids@.contains_key(k) ==> 0 <= self.ids@[k] < self.nodes@.len()
                && self.key_of(self.ids@[k]) == k
        &&& forall|k: Seq<char>, d: int|
            self.ids@.contains_key(k) && 0 <= d <= k.len() ==> #[trigger] self.ids@.contains_key(
                k.take(d),
            )
        &&& forall|i: int, e: int|
            0 <= i < self.nodes@.len() && 0 <= e < self.edges(i).len() ==> {
                let (c, j) = #[trigger] self.edges(i)[e];
                j < self.nodes@.len() && self.key_of(j as int) == self.key_of(i).push(c)
            }
        &&& forall|i: int, c: char|
            0 <= i < self.nodes@.len() && #[trigger] self.ids@.contains_key(
                self.key_of(i).push(c),
            ) ==> exists|e: int| 0 <= e < self.edges(i).len() && (#[trigger] self.edges(i)[e]).0 == c
        &&& forall|i: int, e1: int, e2: int|
            0 <= i < self.nodes@.len() && 0 <= e1 < e2 < self.edges(i).len() ==> (#[trigger] self.edges(i)[e1]).0
                != (#[trigger] self.edges(i)[e2]).0
        &&& forall|i: int|
            0 <= i < self.nodes@.len() && (#[trigger] self.values@[i]) is Some ==> (self.nodes@[i].key matches Some(
                k,
            ) && k@ == self.key_of(i))
        &&& self.len == self.view().dom().len()
    }

    proof fn lemma_view_finite(&self)
        requires
            self.ids@.dom().finite(),
        ensures
            self.view().dom().finite(),
    {
        assert(self.view().dom().subset_of(self.ids@.dom()));
        vstd::set_lib::lemma_len_subset(self.view().dom(), self.ids@.dom());
    }

    /// An empty trie.
    pub fn new() -> (r: Self)
        ensures
            r.wf(),
            r@ == Map::<Seq<char>, V>::empty(),
    {
        let root = TrieNode { children: Vec::new(), key: None, path: Ghost(Seq::empty()) };
        let mut nodes = Vec::new();
        nodes.push(root);
        let mut values = Vec::new();
        values.push(None);
        let ghost m = map![Seq::<char>::empty() => 0int];
        let r = Trie { nodes, values, len: 0, ids: Ghost(m) };
        proof {
            assert forall|k: Seq<char>, d: int|
                r.ids@.contains_key(k) && 0 <= d <= k.len() implies #[trigger] r.ids@.contains_key(
                k.take(d),
            ) by {
                assert(k.take(d) =~= Seq::<char>::empty());
            }
            assert forall|i: int, c: char|
                0 <= i < r.nodes@.len() && #[trigger] r.ids@.contains_key(
                    r.key_of(i).push(c),
                ) implies exists|e: int| 0 <= e < r.edges(i).len() && (#[trigger] r.edges(i)[e]).0 == c by {
                assert(r.key_of(i).push(c).len() == 1);
            }
            assert(r@ =~= Map::<Seq<char>, V>::empty());
        }
        r
    }

    /// The number of keys.
    pub fn len(&self) -> (r: usize)
        requires
            self.wf(),
        ensures
            self@.dom().finite(),
            r == self@.len(),
    {
        proof {
            self.lemma_view_finite();
        }
        self.len
    }

    /// Whether the trie holds no key.
    pub fn is_empty(&self) -> (r: bool)
        requires
            self.wf(),
        ensures
            self@.dom().finite(),
            r == (self@.len() == 0),
    {
        proof {
            self.lemma_view_finite();
        }
        self.len == 0
    }

    /// The child of node `cur` along character `c`.
    fn child(&self, cur: usize, c: char) -> (r: Option<usize>)
        requires
            self.wf(),
            cur < self.nodes@.len(),
        ensures
            r matches Some(j) ==> j < self.nodes@.len() && self.key_of(j as int) == self.key_of(
                cur as int,
            ).push(c),
            r is None ==> !self.ids@.contains_key(self.key_of(cur as int).push(c)),
    {
        let ch = &self.nodes[cur].children;
        let mut e: usize = 0;
        while e < ch.len()
            invariant
                self.wf(),
                cur < self.nodes@.len(),
                ch@ == self.edges(cur as int),
                e <= ch@.len(),
                forall|f: int| 0 <= f < e ==> (#[trigger] ch@[f]).0 != c,
            decreases ch.len() - e,
        {
            if ch[e].0 == c {
                assert(self.edges(cur as int)[e as int] == ch@[e as int]);
                return Some(ch[e].1);
            }
            e = e + 1;
        }
        None
    }

    /// The node whose key is `key`, if there is one.
    fn find(&self, key: &str) -> (r: Option<usize>)
        requires
            self.wf(),
        ensures
            r matches Some(j) ==> self.ids@.contains_key(key@) && self.ids@[key@] == j,
            r is None ==> !self.ids@.contains_key(key@),
    {
        let cs = chars_of(key);
        let mut cur: usize = 0;
        let mut pos: usize = 0;
        while pos < cs.len()
            invariant
                self.wf(),
                cs@ == key@,
                pos <= cs@.len(),
                cur < self.nodes@.len(),
                self.key_of(cur as int) == key@.take(pos as int),
            decreases cs.len() - pos,
        {
            match self.child(cur, cs[pos]) {
                Some(j) => {
                    assert(key@.take(pos as int).push(cs@[pos as int]) =~= key@.take(pos + 1));
                    cur = j;
                },
                None => {
                    proof {
                        assert(key@.take(pos as int).push(cs@[pos as int]) =~= key@.take(pos + 1));
                        if self.ids@.contains_key(key@) {
                            assert(self.ids@.contains_key(key@.take(pos + 1)));
                        }
                    }
                    return None;
                },
            }
            pos = pos + 1;
        }
        assert(key@.take(pos as int) =~= key@);
        assert(self.ids@.contains_key(self.key_of(cur as int)));
        Some(cur)
    }

    /// Adds a node with key `k`, one character `c` below node `cur`.
    fn add_node(&mut self, cur: usize, c: char, k: Ghost<Seq<char>>) -> (j: usize)
        requires
            old(self).wf(),
            cur < old(self).nodes@.len(),
            k@ == old(self).key_of(cur as int).push(c),
            !old(self).ids@.contains_key(k@),
        ensures
            final(self).wf(),
            final(self)@ == old(self)@,
            j < final(self).nodes@.len(),
            final(self).ids@ == old(self).ids@.insert(k@, j as int),
            final(self).ids@.contains_key(k@),
            final(self).key_of(j as int) == k@,
            final(self).nodes@.len() == old(self).nodes@.len() + 1,
            forall|i: int|
                0 <= i < old(self).nodes@.len() ==> #[trigger] final(self).values@[i] == old(self).values@[i],
    {
        let ghost o = *self;
        let j = self.nodes.len();
        let ghost kv = k@;
        self.nodes.push(TrieNode { children: Vec::new(), key: None, path: k });
        self.values.push(None);
        self.nodes[cur].children.push((c, j));
        self.ids = Ghost(self.ids@.insert(kv, j as int));
        proof {
            assert(self.edges(cur as int) == o.edges(cur as int).push((c, j)));
            assert(self.ids@.dom() =~= o.ids@.dom().insert(kv));
            assert forall|i: int| 0 <= i < o.nodes@.len() implies #[trigger] self.key_of(i) == o.key_of(i)
                by {}
            assert(self.key_of(j as int) == kv);
            assert forall|i: int|
                0 <= i < self.nodes@.len() implies #[trigger] self.ids@.contains_key(self.key_of(i))
                && self.ids@[self.key_of(i)] == i by {
                if i < j {
                    assert(o.ids@.contains_key(o.key_of(i)));
                }
            }
            assert forall|kk: Seq<char>, d: int|
                self.ids@.contains_key(kk) && 0 <= d <= kk.len() implies #[trigger] self.ids@.contains_key(
                kk.take(d),
            ) by {
                if kk == kv && d < kk.len() {
                    assert(o.ids@.contains_key(o.key_of(cur as int)));
                    assert(kk.take(d) =~= o.key_of(cur as int).take(d));
                } else if kk == kv {
                    assert(kk.take(d) =~= kk);
                }
            }
            assert forall|i: int, e: int|
                0 <= i < self.nodes@.len() && 0 <= e < self.edges(i).len() implies {
                let (c2, j2) = #[trigger] self.edges(i)[e];
                j2 < self.nodes@.len() && self.key_of(j2 as int) == self.key_of(i).push(c2)
            } by {
                if i != cur && i < j {
                    assert(self.edges(i) == o.edges(i));
                    assert(o.edges(i)[e] == self.edges(i)[e]);
                } else if i == cur && e < o.edges(i).len() {
                    assert(o.edges(i)[e] == self.edges(i)[e]);
                }
            }
            assert forall|i: int, c2: char|
                0 <= i < self.nodes@.len() && #[trigger] self.ids@.contains_key(
                    self.key_of(i).push(c2),
                ) implies exists|e: int| 0 <= e < self.edges(i).len() && (#[trigger] self.edges(i)[e]).0 == c2 by {
                if i == j {
                    if o.ids@.contains_key(kv.push(c2)) {
                        assert(kv.push(c2).take(kv.len() as int) =~= kv);
                        assert(o.ids@.contains_key(kv.push(c2).take(kv.len() as int)));
                    }
                    assert(kv.push(c2).len() != kv.len());
                } else if self.key_of(i).push(c2) == kv {
                    assert(self.key_of(i) =~= kv.drop_last());
                    assert(o.key_of(cur as int) =~= kv.drop_last());
                    assert(o.ids@.contains_key(o.key_of(i)));
                    assert(o.ids@.contains_key(o.key_of(cur as int)));
                    assert(i == cur);
                    assert(self.key_of(i).push(c2).last() == c2);
                    assert(kv.last() == c);
                    assert(self.edges(i)[o.edges(i).len() as int].0 == c2);
                } else {
                    assert(o.ids@.contains_key(o.key_of(i).push(c2)));
                    let e = choose|e: int| 0 <= e < o.edges(i).len() && (#[trigger] o.edges(i)[e]).0 == c2;
                    assert(self.edges(i)[e] == o.edges(i)[e]);
                }
            }
            assert forall|i: int, e1: int, e2: int|
                0 <= i < self.nodes@.len() && 0 <= e1 < e2 < self.edges(i).len() implies (#[trigger] self.edges(i)[e1]).0
                != (#[trigger] self.edges(i)[e2]).0 by {
                if i == cur {
                    if e2 == o.edges(i).len() {
                        let (c1, j1) = o.edges(i)[e1];
                        assert(self.edges(i)[e1] == o.edges(i)[e1]);
                        assert(o.key_of(j1 as int) == o.key_of(i).push(c1));
                        assert(o.ids@.contains_key(o.key_of(j1 as int)));
                        if c1 == c {
                            assert(o.key_of(j1 as int) == kv);
                        }
                    } else {
                        assert(self.edges(i)[e1] == o.edges(i)[e1]);
                        assert(self.edges(i)[e2] == o.edges(i)[e2]);
                    }
                } else if i < j {
                    assert(self.edges(i) == o.edges(i));
                }
            }
            assert(self@ =~= o@);
        }
        j
    }

    /// Stores `value` under `key`, returning the value it replaces.
    pub fn insert(&mut self, key: &str, value: V) -> (r: Option<V>)
        requires
            old(self).wf(),
        ensures
            final(self).wf(),
            final(self)@ == old(self)@.insert(key@, value),
            r matches Some(v) ==> old(self)@.contains_key(key@) && v == old(self)@[key@],
            r is None ==> !old(self)@.contains_key(key@),
    {
        let ghost o = *self;
        let cs = chars_of(key);
        let mut cur: usize = 0;
        let mut pos: usize = 0;
        while pos < cs.len()
            invariant
                self.wf(),
                self@ == o@,
                forall|kk: Seq<char>| #[trigger] o.ids@.contains_key(kk) ==> self.ids@.contains_key(kk) && self.ids@[kk] == o.ids@[kk],
                forall|i: int| 0 <= i < o.nodes@.len() ==> #[trigger] self.values@[i] == o.values@[i],
                o.nodes@.len() <= self.nodes@.len(),
                cs@ == key@,
                pos <= cs@.len(),
                cur < self.nodes@.len(),
                self.key_of(cur as int) == key@.take(pos as int),
            decreases cs.len() - pos,
        {
            assert(key@.take(pos as int).push(cs@[pos as int]) =~= key@.take(pos + 1));
            match self.child(cur, cs[pos]) {
                Some(j) => {
                    cur = j;
                },
                None => {
                    cur = self.add_node(cur, cs[pos], Ghost(key@.take(pos + 1)));
                },
            }
            pos = pos + 1;
        }
        assert(key@.take(pos as int) =~= key@);
        assert(self.ids@.contains_key(self.key_of(cur as int)));
        let ghost mid = *self;
        let _arena_len = self.nodes.len();
        let old_value = self.values[cur].take();
        self.values[cur] = Some(value);
        self.nodes[cur].key = Some(key.to_owned());
        proof {
            assert forall|i: int| 0 <= i < self.nodes@.len() implies #[trigger] self.key_of(i) == mid.key_of(i)
                && self.edges(i) == mid.edges(i) by {}
            assert(self@ =~= mid@.insert(key@, value));
            mid.lemma_view_finite();
            if old_value is None {
                assert(!mid@.dom().contains(key@));
                assert(mid@.dom().subset_of(mid.ids@.dom()));
                assert(mid@.dom().insert(key@).subset_of(mid.ids@.dom()));
                vstd::set_lib::lemma_len_subset(mid@.dom().insert(key@), mid.ids@.dom());
            } else {
                assert(mid@.dom().contains(key@));
            }
        }
        if old_value.is_none() {
            self.len = self.len + 1;
        }
        proof {
            assert forall|i: int|
                0 <= i < self.nodes@.len() && (#[trigger] self.values@[i]) is Some implies (self.nodes@[i].key matches Some(
                k,
            ) && k@ == self.key_of(i)) by {
                if i != cur {
                    assert(self.nodes@[i] == mid.nodes@[i]);
                    assert(self.values@[i] == mid.values@[i]);
                }
            }
            assert(self.len == self@.dom().len());
            assert forall|i: int, e: int|
                0 <= i < self.nodes@.len() && 0 <= e < self.edges(i).len() implies {
                let (c2, j2) = #[trigger] self.edges(i)[e];
                j2 < self.nodes@.len() && self.key_of(j2 as int) == self.key_of(i).push(c2)
            } by {
                assert(mid.edges(i)[e] == self.edges(i)[e]);
            }
            assert forall|i: int, e1: int, e2: int|
                0 <= i < self.nodes@.len() && 0 <= e1 < e2 < self.edges(i).len() implies (#[trigger] self.edges(i)[e1]).0
                != (#[trigger] self.edges(i)[e2]).0 by {
                assert(mid.edges(i)[e1] == self.edges(i)[e1]);
                assert(mid.edges(i)[e2] == self.edges(i)[e2]);
            }
            assert forall|i: int, c2: char|
                0 <= i < self.nodes@.len() && #[trigger] self.ids@.contains_key(
                    self.key_of(i).push(c2),
                ) implies exists|e: int| 0 <= e < self.edges(i).len() && (#[trigger] self.edges(i)[e]).0 == c2 by {
                assert(mid.ids@.contains_key(mid.key_of(i).push(c2)));
                let e = choose|e: int| 0 <= e < mid.edges(i).len() && (#[trigger] mid.edges(i)[e]).0 == c2;
                assert(self.edges(i)[e] == mid.edges(i)[e]);
            }
            assert(self.key_of(0) == mid.key_of(0));
            assert forall|i: int|
                0 <= i < self.nodes@.len() implies #[trigger] self.ids@.contains_key(self.key_of(i))
                && self.ids@[self.key_of(i)] == i by {
                assert(self.key_of(i) == mid.key_of(i));
                assert(mid.ids@.contains_key(mid.key_of(i)));
            }
            assert(forall|k: Seq<char>|
                #[trigger] self.ids@.contains_key(k) ==> 0 <= self.ids@[k] < self.nodes@.len()
                    && self.key_of(self.ids@[k]) == k);
        }
        old_value
    }

    /// Removes `key`, returning its value. The nodes on its path stay.
    pub fn remove(&mut self, key: &str) -> (r: Option<V>)
        requires
            old(self).wf(),
        ensures
            final(self).wf(),
            final(self)@ == old(self)@.remove(key@),
            r matches Some(v) ==> old(self)@.contains_key(key@) && v == old(self)@[key@],
            r is None ==> !old(self)@.contains_key(key@),
    {
        let j = match self.find(key) {
            Some(j) => j,
            None => {
                assert(self@ =~= self@.remove(key@));
                return None;
            },
        };
        let ghost mid = *self;
        let old_value = self.values[j].take();
        proof {
            assert forall|i: int| 0 <= i < self.nodes@.len() implies #[trigger] self.key_of(i) == mid.key_of(i)
                && self.edges(i) == mid.edges(i) by {}
            assert(self@ =~= mid@.remove(key@));
            mid.lemma_view_finite();
        }
        if old_value.is_some() {
            self.len = self.len - 1;
        }
        proof {
            assert(self.len == self@.dom().len());
            assert forall|i: int, e: int|
                0 <= i < self.nodes@.len() && 0 <= e < self.edges(i).len() implies {
                let (c2, j2) = #[trigger] self.edges(i)[e];
                j2 < self.nodes@.len() && self.key_of(j2 as int) == self.key_of(i).push(c2)
            } by {
                assert(mid.edges(i)[e] == self.edges(i)[e]);
            }
            assert forall|i: int, e1: int, e2: int|
                0 <= i < self.nodes@.len() && 0 <= e1 < e2 < self.edges(i).len() implies (#[trigger] self.edges(i)[e1]).0
                != (#[trigger] self.edges(i)[e2]).0 by {
                assert(mid.edges(i)[e1] == self.edges(i)[e1]);
                assert(mid.edges(i)[e2] == self.edges(i)[e2]);
            }
            assert forall|i: int, c2: char|
                0 <= i < self.nodes@.len() && #[trigger] self.ids@.contains_key(
                    self.key_of(i).push(c2),
                ) implies exists|e: int| 0 <= e < self.edges(i).len() && (#[trigger] self.edges(i)[e]).0 == c2 by {
                assert(mid.ids@.contains_key(mid.key_of(i).push(c2)));
                let e = choose|e: int| 0 <= e < mid.edges(i).len() && (#[trigger] mid.edges(i)[e]).0 == c2;
                assert(self.edges(i)[e] == mid.edges(i)[e]);
            }
            assert forall|i: int|
                0 <= i < self.nodes@.len() implies #[trigger] self.ids@.contains_key(self.key_of(i))
                && self.ids@[self.key_of(i)] == i by {
                assert(self.key_of(i) == mid.key_of(i));
                assert(mid.ids@.contains_key(mid.key_of(i)));
            }
        }
        old_value
    }

    /// Mutable access to the value stored under `key`.
    ///
    /// The contract gives the contents after the reference is used; it does
    /// not restate well-formedness, so verified code changes values with
    /// `insert` instead.
    pub fn get_mut(&mut self, key: &str) -> (r: Option<&mut V>)
        requires
            old(self).wf(),
        ensures
            r is None ==> !old(self)@.contains_key(key@),
            r matches Some(v) ==> old(self)@.contains_key(key@),
            r matches Some(v) ==> *v == old(self)@[key@],
            r matches Some(v) ==> final(self)@ == old(self)@.insert(key@, *final(v)),
    {
        match self.find(key) {
            Some(j) => {
                proof {
                    assert(self.ids@.contains_key(self.key_of(j as int)));
                }
                self.values[j].as_mut()
            },
            None => None,
        }
    }

    /// Every key that starts with `prefix`, with a reference to its value.
    ///
    /// Walks to the node of `prefix`, then visits its subtree only. Each key
    /// appears exactly once; the order is unspecified.
    pub fn prefix_iter(&self, prefix: &str) -> (r: Vec<(String, &V)>)
        requires
            self.wf(),
        ensures
            forall|a: int|
                0 <= a < r@.len() ==> self@.contains_key((#[trigger] r@[a]).0@) && has_prefix(
                    r@[a].0@,
                    prefix@,
                ) && *r@[a].1 == self@[r@[a].0@],
            forall|k: Seq<char>|
                self@.contains_key(k) && has_prefix(k, prefix@) ==> exists|a: int|
                    0 <= a < r@.len() && (#[trigger] r@[a]).0@ == k,
            forall|a: int, b: int| 0 <= a < b < r@.len() ==> (#[trigger] r@[a]).0@ != (#[trigger] r@[b]).0@,
    {
        let mut out: Vec<(String, &V)> = Vec::new();
        let ghost p = prefix@;
        let start = match self.find(prefix) {
            Some(q) => q,
            None => {
                proof {
                    assert forall|k: Seq<char>| self@.contains_key(k) && has_prefix(k, p) implies false by {
                        assert(k.take(p.len() as int) =~= p);
                        assert(self.ids@.contains_key(k.take(p.len() as int)));
                    }
                }
                return out;
            },
        };
        proof {
            assert(self.key_of(start as int) == p);
        }
        let mut stack: Vec<usize> = Vec::new();
        stack.push(start);
        let ghost mut visited: Set<int> = Set::empty();
        let ghost mut src: Seq<int> = Seq::empty();
        proof {
            assert(p.subrange(0, p.len() as int) =~= p);
            assert(stack@[0] == start);
            assert forall|n: int| 0 <= n < self.nodes@.len() && has_prefix(self.key_of(n), p) implies (visited.contains(n)
                <==> !(exists|a: int| 0 <= a < stack@.len() && has_prefix(self.key_of(n), self.key_of(#[trigger] stack@[a] as int)))) by {
                assert(has_prefix(self.key_of(n), self.key_of(stack@[0] as int)));
            }
            assert forall|a: int| 0 <= a < stack@.len() implies (#[trigger] stack@[a] as int) < self.nodes@.len() && has_prefix(
                self.key_of(stack@[a] as int),
                p,
            ) by {
                assert(a == 0);
            }
            assert(self.dfs_inv(p, stack@, visited));
        }
        while stack.len() > 0
            invariant
                self.wf(),
                p == prefix@,
                self.dfs_inv(p, stack@, visited),
                src.len() == out@.len(),
                forall|a: int|
                    0 <= a < src.len() ==> visited.contains(#[trigger] src[a]) && out@[a].0@ == self.key_of(src[a])
                        && self.values@[src[a]] == Some(*out@[a].1),
                forall|a: int, b: int| 0 <= a < b < src.len() ==> #[trigger] src[a] != #[trigger] src[b],
                forall|n: int|
                    visited.contains(n) && self.values@[n] is Some ==> exists|a: int| 0 <= a < src.len() && #[trigger] src[a] == n,
            decreases self.nodes@.len() - visited.len(),
        {
            let ghost old_stack = stack@;
            let ghost old_visited = visited;
            let top = stack.pop();
            let s = match top {
                Some(x) => x,
                None => {
                    return out;
                },
            };
            proof {
                assert(old_stack.last() == s);
                assert(stack@ == old_stack.drop_last());
                self.lemma_dfs_top(p, old_stack, visited);
            }
            let node = &self.nodes[s];
            let ghost old_src = src;
            proof {
                assert(self.values@[s as int] is Some ==> node.key is Some);
            }
            if let (Some(v), Some(k)) = (&self.values[s], &node.key) {
                out.push((k.clone(), v));
                proof {
                    src = src.push(s as int);
                }
            }
            proof {
                visited = visited.insert(s as int);
                assert forall|a: int| 0 <= a < src.len() implies visited.contains(#[trigger] src[a]) && out@[a].0@ == self.key_of(src[a])
                    && self.values@[src[a]] == Some(*out@[a].1) by {
                    if a < old_src.len() {
                        assert(src[a] == old_src[a]);
                    }
                }
                assert forall|a: int, b: int| 0 <= a < b < src.len() implies #[trigger] src[a] != #[trigger] src[b] by {
                    if b == old_src.len() {
                        assert(old_visited.contains(old_src[a]));
                    } else {
                        assert(src[a] == old_src[a] && src[b] == old_src[b]);
                    }
                }
                assert forall|n: int| visited.contains(n) && self.values@[n] is Some implies exists|a: int|
                    0 <= a < src.len() && #[trigger] src[a] == n by {
                    if n == s {
                        assert(src[src.len() - 1] == n);
                    } else {
                        let a = choose|a: int| 0 <= a < old_src.len() && #[trigger] old_src[a] == n;
                        assert(src[a] == old_src[a]);
                    }
                }
            }
            let ch = &node.children;
            let mut e: usize = 0;
            let ghost rest = stack@;
            while e < ch.len()
                invariant
                    self.wf(),
                    s < self.nodes@.len(),
                    ch@ == self.edges(s as int),
                    e <= ch@.len(),
                    stack@ == rest + ch@.take(e as int).map_values(|x: (char, usize)| x.1),
                decreases ch.len() - e,
            {
                stack.push(ch[e].1);
                assert(ch@.take(e + 1).map_values(|x: (char, usize)| x.1) =~= ch@.take(e as int).map_values(|x: (char, usize)| x.1).push(ch@[e as int].1));
                e = e + 1;
            }
            proof {
                assert(ch@.take(ch@.len() as int) =~= ch@);
                self.lemma_dfs_step(p, old_stack, old_visited, s as int);
                vstd::set_lib::lemma_int_range(0, self.nodes@.len() as int);
                vstd::set_lib::lemma_len_subset(visited, vstd::set_lib::set_int_range(0, self.nodes@.len() as int));
            }
        }
        proof {
            assert forall|a: int| 0 <= a < out@.len() implies self@.contains_key((#[trigger] out@[a]).0@) && has_prefix(out@[a].0@, p)
                && *out@[a].1 == self@[out@[a].0@] by {
                assert(self.ids@.contains_key(self.key_of(src[a])));
            }
            assert forall|k: Seq<char>| self@.contains_key(k) && has_prefix(k, p) implies exists|a: int|
                0 <= a < out@.len() && (#[trigger] out@[a]).0@ == k by {
                let n = self.ids@[k];
                assert(visited.contains(n));
                let a = choose|a: int| 0 <= a < src.len() && #[trigger] src[a] == n;
                assert(out@[a].0@ == k);
            }
            assert forall|a: int, b: int| 0 <= a < b < out@.len() implies (#[trigger] out@[a]).0@ != (#[trigger] out@[b]).0@ by {
                assert(self.ids@.contains_key(self.key_of(src[a])));
                assert(self.ids@.contains_key(self.key_of(src[b])));
            }
        }
        out
    }

    /// The depth-first walk below the node of `p`: stack entries lie below
    /// `p` in disjoint subtrees, and a node below `p` has been visited
    /// exactly when it is in none of their subtrees.
    pub closed spec fn dfs_inv(&self, p: Seq<char>, stack: Seq<usize>, visited: Set<int>) -> bool {
        &&& forall|a: int|
            0 <= a < stack.len() ==> (#[trigger] stack[a] as int) < self.nodes@.len() && has_prefix(
                self.key_of(stack[a] as int),
                p,
            )
        &&& forall|a: int, b: int|
            0 <= a < stack.len() && 0 <= b < stack.len() && a != b ==> !has_prefix(
                self.key_of(#[trigger] stack[a] as int),
                self.key_of(#[trigger] stack[b] as int),
            )
        &&& visited.finite()
        &&& forall|n: int| #[trigger] visited.contains(n) ==> 0 <= n < self.nodes@.len() && has_prefix(self.key_of(n), p)
        &&& forall|n: int|
            0 <= n < self.nodes@.len() && has_prefix(self.key_of(n), p) ==> (visited.contains(n) <==> !(exists|a: int|
                0 <= a < stack.len() && has_prefix(self.key_of(n), self.key_of(#[trigger] stack[a] as int))))
    }

    proof fn lemma_dfs_top(&self, p: Seq<char>, stack: Seq<usize>, visited: Set<int>)
        requires
            self.wf(),
            self.dfs_inv(p, stack, visited),
            stack.len() > 0,
        ensures
            (stack.last() as int) < self.nodes@.len(),
            !visited.contains(stack.last() as int),
            has_prefix(self.key_of(stack.last() as int), p),
    {
        let s = stack.last() as int;
        assert(stack[stack.len() - 1] as int == s);
        assert(has_prefix(self.key_of(s), self.key_of(s))) by {
            assert(self.key_of(s).subrange(0, self.key_of(s).len() as int) =~= self.key_of(s));
        }
    }

    proof fn lemma_dfs_step(&self, p: Seq<char>, stack: Seq<usize>, visited: Set<int>, s: int)
        requires
            self.wf(),
            self.dfs_inv(p, stack, visited),
            stack.len() > 0,
            stack.last() as int == s,
        ensures
            self.dfs_inv(
                p,
                stack.drop_last() + self.edges(s).map_values(|x: (char, usize)| x.1),
                visited.insert(s),
            ),
    {
        let rest = stack.drop_last();
        let kids = self.edges(s).map_values(|x: (char, usize)| x.1);
        let ns = rest + kids;
        let nv = visited.insert(s);
        let ks = self.key_of(s);
        assert(stack[stack.len() - 1] as int == s);
        assert forall|a: int| 0 <= a < kids.len() implies (#[trigger] kids[a] as int) < self.nodes@.len()
            && self.key_of(kids[a] as int) == ks.push(self.edges(s)[a].0) by {
            let (c, j) = self.edges(s)[a];
        }
        assert forall|a: int| 0 <= a < ns.len() implies (#[trigger] ns[a] as int) < self.nodes@.len() && has_prefix(
            self.key_of(ns[a] as int),
            p,
        ) by {
            if a < rest.len() {
                assert(ns[a] == stack[a]);
            } else {
                let j = kids[a - rest.len()] as int;
                assert(ns[a] as int == j);
                lemma_prefix_push(ks, self.edges(s)[a - rest.len()].0);
                lemma_prefix_trans(self.key_of(j), ks, p);
            }
        }
        assert forall|a: int, b: int| 0 <= a < ns.len() && 0 <= b < ns.len() && a != b implies !has_prefix(
            self.key_of(#[trigger] ns[a] as int),
            self.key_of(#[trigger] ns[b] as int),
        ) by {
            let ka = self.key_of(ns[a] as int);
            let kb = self.key_of(ns[b] as int);
            if a < rest.len() && b < rest.len() {
                assert(ns[a] == stack[a] && ns[b] == stack[b]);
            } else if a >= rest.len() && b >= rest.len() {
                let ea = a - rest.len();
                let eb = b - rest.len();
                if ea < eb {
                    assert(self.edges(s)[ea].0 != self.edges(s)[eb].0);
                } else {
                    assert(self.edges(s)[eb].0 != self.edges(s)[ea].0);
                }
                assert(ka.len() == kb.len());
                if has_prefix(ka, kb) {
                    assert(ka.subrange(0, kb.len() as int) =~= ka);
                    assert(ka[ks.len() as int] == kb[ks.len() as int]);
                }
            } else if a < rest.len() {
                // a is an older stack entry, b a child of s
                let kx = ka;
                let eb = b - rest.len();
                assert(ns[a] == stack[a]);
                assert(!has_prefix(kx, ks) && !has_prefix(ks, kx)) by {
                    assert(stack.len() - 1 != a);
                }
                lemma_prefix_push(ks, self.edges(s)[eb].0);
                if has_prefix(kx, kb) {
                    lemma_prefix_trans(kx, kb, ks);
                }
            } else {
                // a is a child of s, b an older stack entry
                let kx = kb;
                let ea = a - rest.len();
                assert(ns[b] == stack[b]);
                assert(!has_prefix(kx, ks) && !has_prefix(ks, kx)) by {
                    assert(stack.len() - 1 != b);
                }
                lemma_prefix_push(ks, self.edges(s)[ea].0);
                if has_prefix(ka, kx) {
                    if kx.len() <= ks.len() {
                        assert(ks.subrange(0, kx.len() as int) =~= ka.subrange(0, kx.len() as int));
                    } else {
                        assert(kx.len() == ka.len());
                        assert(ka.subrange(0, kx.len() as int) =~= ka);
                        lemma_prefix_trans(kx, ka, ks);
                    }
                }
            }
        }
        assert forall|n: int| #[trigger] nv.contains(n) implies 0 <= n < self.nodes@.len() && has_prefix(self.key_of(n), p) by {
            if n == s {
                self.lemma_dfs_top(p, stack, visited);
            }
        }
        assert forall|n: int|
            0 <= n < self.nodes@.len() && has_prefix(self.key_of(n), p) implies (nv.contains(n) <==> !(exists|a: int|
            0 <= a < ns.len() && has_prefix(self.key_of(n), self.key_of(#[trigger] ns[a] as int)))) by {
            let kn = self.key_of(n);
            if n == s {
                assert forall|a: int| 0 <= a < ns.len() implies !has_prefix(kn, self.key_of(#[trigger] ns[a] as int)) by {
                    if a < rest.len() {
                        assert(ns[a] == stack[a]);
                        assert(stack.len() - 1 != a);
                    } else {
                        lemma_prefix_push(ks, self.edges(s)[a - rest.len()].0);
                    }
                }
            } else if visited.contains(n) {
                assert forall|a: int| 0 <= a < ns.len() implies !has_prefix(kn, self.key_of(#[trigger] ns[a] as int)) by {
                    if a < rest.len() {
                        assert(ns[a] == stack[a]);
                    } else {
                        lemma_prefix_push(ks, self.edges(s)[a - rest.len()].0);
                        if has_prefix(kn, self.key_of(ns[a] as int)) {
                            lemma_prefix_trans(kn, self.key_of(ns[a] as int), ks);
                            assert(has_prefix(kn, self.key_of(stack[stack.len() - 1] as int)));
                        }
                    }
                }
            } else {
                let a0 = choose|a: int| 0 <= a < stack.len() && has_prefix(kn, self.key_of(#[trigger] stack[a] as int));
                if a0 < stack.len() - 1 {
                    assert(ns[a0] == stack[a0]);
                    assert(has_prefix(kn, self.key_of(ns[a0] as int)));
                } else {
                    // n lies strictly below s: follow the edge for its next character
                    assert(has_prefix(kn, ks));
                    assert(self.ids@.contains_key(kn));
                    assert(self.ids@.contains_key(ks));
                    assert(kn != ks);
                    assert(kn.len() > ks.len()) by {
                        if kn.len() == ks.len() {
                            assert(kn.subrange(0, ks.len() as int) =~= kn);
                        }
                    }
                    let c = kn[ks.len() as int];
                    assert(kn.take(ks.len() as int + 1) =~= ks.push(c));
                    assert(self.ids@.contains_key(kn.take(ks.len() as int + 1)));
                    assert(self.ids@.contains_key(self.key_of(s).push(c)));
                    let e = choose|e: int| 0 <= e < self.edges(s).len() && (#[trigger] self.edges(s)[e]).0 == c;
                    let j = self.edges(s)[e].1 as int;
                    assert(self.key_of(j) == ks.push(c));
                    assert(ns[rest.len() + e] as int == j);
                    assert(has_prefix(kn, self.key_of(j))) by {
                        assert(kn.subrange(0, ks.len() as int + 1) =~= ks.push(c));
                    }
                }
            }
        }
    }

    /// Every key with a reference to its value, each exactly once.
    pub fn iter(&self) -> (r: Vec<(String, &V)>)
        requires
            self.wf(),
        ensures
            forall|a: int|
                0 <= a < r@.len() ==> self@.contains_key((#[trigger] r@[a]).0@) && *r@[a].1
                    == self@[r@[a].0@],
            forall|k: Seq<char>|
                self@.contains_key(k) ==> exists|a: int| 0 <= a < r@.len() && (#[trigger] r@[a]).0@ == k,
            forall|a: int, b: int| 0 <= a < b < r@.len() ==> (#[trigger] r@[a]).0@ != (#[trigger] r@[b]).0@,
    {
        proof {
            reveal_strlit("");
        }
        let r = self.prefix_iter("");
        proof {
            assert forall|k: Seq<char>| self@.contains_key(k) implies exists|a: int|
                0 <= a < r@.len() && (#[trigger] r@[a]).0@ == k by {
                assert(k.subrange(0, 0) =~= ""@);
                assert(has_prefix(k, ""@));
            }
        }
        r
    }

    /// Every key, each exactly once.
    pub fn keys(&self) -> (r: Vec<String>)
        requires
            self.wf(),
        ensures
            forall|a: int| 0 <= a < r@.len() ==> self@.contains_key((#[trigger] r@[a])@),
            forall|k: Seq<char>|
                self@.contains_key(k) ==> exists|a: int| 0 <= a < r@.len() && (#[trigger] r@[a])@ == k,
            forall|a: int, b: int| 0 <= a < b < r@.len() ==> (#[trigger] r@[a])@ != (#[trigger] r@[b])@,
    {
        let entries = self.iter();
        let mut out: Vec<String> = Vec::new();
        let mut i: usize = 0;
        while i < entries.len()
            invariant
                i <= entries@.len(),
                out@.len() == i,
                forall|a: int| 0 <= a < i ==> (#[trigger] out@[a])@ == entries@[a].0@,
            decreases entries.len() - i,
        {
            out.push(entries[i].0.clone());
            i = i + 1;
        }
        proof {
            assert forall|k: Seq<char>| self@.contains_key(k) implies exists|a: int|
                0 <= a < out@.len() && (#[trigger] out@[a])@ == k by {
                let a = choose|a: int| 0 <= a < entries@.len() && (#[trigger] entries@[a]).0@ == k;
                assert(out@[a]@ == k);
            }
            assert forall|a: int| 0 <= a < out@.len() implies self@.contains_key((#[trigger] out@[a])@) by {
                assert(out@[a]@ == entries@[a].0@);
            }
            assert forall|a: int, b: int| 0 <= a < b < out@.len() implies (#[trigger] out@[a])@
                != (#[trigger] out@[b])@ by {
                assert(out@[a]@ == entries@[a].0@);
                assert(out@[b]@ == entries@[b].0@);
            }
        }
        out
    }

    /// A reference to every value, one per key.
    pub fn values(&self) -> (r: Vec<&V>)
        requires
            self.wf(),
        ensures
            exists|ks: Seq<Seq<char>>|
                ks.len() == r@.len() && ks.to_set() == self@.dom() && ks.no_duplicates() && forall|a: int|
                    0 <= a < r@.len() ==> *r@[a] == self@[#[trigger] ks[a]],
    {
        let entries = self.iter();
        let mut out: Vec<&V> = Vec::new();
        let mut i: usize = 0;
        while i < entries.len()
            invariant
                i <= entries@.len(),
                out@.len() == i,
                forall|a: int| 0 <= a < i ==> *(#[trigger] out@[a]) == *entries@[a].1,
            decreases entries.len() - i,
        {
            out.push(entries[i].1);
            i = i + 1;
        }
        proof {
            let ks = entries@.map_values(|e: (String, &V)| e.0@);
            assert(ks.to_set() =~= self@.dom()) by {
                assert forall|k: Seq<char>| ks.to_set().contains(k) implies self@.dom().contains(k) by {
                    let a = choose|a: int| 0 <= a < ks.len() && ks[a] == k;
                    assert(entries@[a].0@ == k);
                }
                assert forall|k: Seq<char>| self@.dom().contains(k) implies ks.to_set().contains(k) by {
                    let a = choose|a: int| 0 <= a < entries@.len() && (#[trigger] entries@[a]).0@ == k;
                    assert(ks[a] == k);
                }
            }
            assert(ks.no_duplicates()) by {
                assert forall|a: int, b: int| 0 <= a < ks.len() && 0 <= b < ks.len() && a != b implies ks[a] != ks[b] by {
                    if a < b {
                        assert(entries@[a].0@ != entries@[b].0@);
                    } else {
                        assert(entries@[b].0@ != entries@[a].0@);
                    }
                }
            }
            assert forall|a: int| 0 <= a < out@.len() implies *out@[a] == self@[#[trigger] ks[a]] by {
                assert(*out@[a] == *entries@[a].1);
            }
        }
        out
    }

    /// Removes every key.
    pub fn clear(&mut self)
        requires
            old(self).wf(),
        ensures
            final(self).wf(),
            final(self)@ == Map::<Seq<char>, V>::empty(),
    {
        *self = Trie::new();
    }

    /// The value stored under `key`.
    pub fn get(&self, key: &str) -> (r: Option<&V>)
        requires
            self.wf(),
        ensures
            r matches Some(v) ==> self@.contains_key(key@) && *v == self@[key@],
            r is None ==> !self@.contains_key(key@),
    {
        match self.find(key) {
            Some(j) => self.values[j].as_ref(),
            None => None,
        }
    }

    /// Whether `key` is stored.
    pub fn contains(&self, key: &str) -> (r: bool)
        requires
            self.wf(),
        ensures
            r == self@.contains_key(key@),
    {
        self.get(key).is_some()
    }
}

} // verus!
