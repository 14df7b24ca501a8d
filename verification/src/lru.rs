//! A fixed-capacity key-value cache with least-recently-used eviction.
//!
//! The cache is built from a recency list ([`DoublyLinkedList`]) that keeps
//! its entries ordered from most recently used at the head to least
//! recently used at the tail.  The model of both the list and the cache is
//! the sequence of `(key view, value)` pairs in that order; every operation
//! states over that sequence exactly what it does.  Lookup walks the list
//! by key, so the key-to-entry index of the classic design is the list
//! itself; its defining invariant — one entry per key, entries and keys in
//! one-to-one correspondence — is the `distinct_keys` clause of the cache's
//! invariant.
//!
//! A capacity of zero is rejected at construction: every cache holds at
//! least one entry before evicting.

use crate::traits::CacheKey;
use crate::traits::Duplicable;
use vstd::prelude::*;

verus! {

// ---------------------------------------------------------------------
// The model: sequences of (key, value) pairs, most recent first.
// ---------------------------------------------------------------------
/// Whether some entry of `s` carries the key `k`.
pub open spec fn has_key<A, B>(s: Seq<(A, B)>, k: A) -> bool {
    exists|i: int| 0 <= i < s.len() && s[i].0 == k
}

/// The index of the first entry of `s` carrying the key `k`.
pub open spec fn key_index<A, B>(s: Seq<(A, B)>, k: A) -> int
    decreases s.len(),
{
    if s.len() == 0 {
        0
    } else if s[0].0 == k {
        0
    } else {
        1 + key_index(s.skip(1), k)
    }
}

/// `n` capped at `limit`.
pub open spec fn cap_at(n: int, limit: int) -> int {
    if n <= limit {
        n
    } else {
        limit
    }
}

/// No two entries of `s` carry the same key.
pub open spec fn distinct_keys<A, B>(s: Seq<(A, B)>) -> bool {
    forall|i: int, j: int| 0 <= i < j < s.len() ==> s[i].0 != s[j].0
}

/// What a `put` of `(k, v)` does to a cache in state `s` with capacity
/// `limit`: an entry under `k` takes the new value and moves to the head;
/// otherwise the new entry enters at the head, after the tail is evicted
/// if the cache is full.
pub open spec fn put_effect<A, B>(s: Seq<(A, B)>, limit: int, k: A, v: B) -> Seq<(A, B)> {
    if has_key(s, k) {
        seq![(k, v)] + s.remove(key_index(s, k))
    } else if s.len() < limit {
        seq![(k, v)] + s
    } else {
        seq![(k, v)] + s.drop_last()
    }
}

/// What a hit on `k` does to the recency order: the entry under `k` moves
/// to the head, everything else keeps its order.  A miss changes nothing.
pub open spec fn touch<A, B>(s: Seq<(A, B)>, k: A) -> Seq<(A, B)> {
    if has_key(s, k) {
        seq![s[key_index(s, k)]] + s.remove(key_index(s, k))
    } else {
        s
    }
}

/// The value a `get` of `k` returns on state `s`.
pub open spec fn lookup<A, B>(s: Seq<(A, B)>, k: A) -> Option<B> {
    if has_key(s, k) {
        Some(s[key_index(s, k)].1)
    } else {
        None
    }
}

/// The first index carrying `k` is `i` exactly when `s[i]` carries `k`
/// and no entry before it does.
proof fn lemma_key_index_first<A, B>(s: Seq<(A, B)>, k: A, i: int)
    requires
        0 <= i < s.len(),
        s[i].0 == k,
        forall|j: int| 0 <= j < i ==> s[j].0 != k,
    ensures
        key_index(s, k) == i,
        has_key(s, k),
    decreases i,
{
    if i == 0 {
    } else {
        lemma_key_index_first(s.skip(1), k, i - 1);
    }
}

/// When `s` has the key `k`, `key_index` names a real entry carrying `k`,
/// and the first one.
proof fn lemma_key_index_props<A, B>(s: Seq<(A, B)>, k: A)
    requires
        has_key(s, k),
    ensures
        0 <= key_index(s, k) < s.len(),
        s[key_index(s, k)].0 == k,
        forall|j: int| 0 <= j < key_index(s, k) ==> s[j].0 != k,
    decreases s.len(),
{
    if s.len() == 0 {
    } else if s[0].0 == k {
    } else {
        assert(has_key(s.skip(1), k)) by {
            let i = choose|i: int| 0 <= i < s.len() && s[i].0 == k;
            assert(s.skip(1)[i - 1].0 == k);
        }
        lemma_key_index_props(s.skip(1), k);
        assert forall|j: int| 0 <= j < key_index(s, k) implies s[j].0 != k by {
            if j > 0 {
                assert(s.skip(1)[j - 1].0 != k);
            }
        }
    }
}

// ---------------------------------------------------------------------
// Nodes: an owned snapshot of the list from one entry onward.
// ---------------------------------------------------------------------
/// An owned snapshot of one entry and of everything after it in recency
/// order.
pub struct NodeRef<K: CacheKey, V> {
    key: K,
    value: V,
    next: Option<Box<NodeRef<K, V>>>,
}

impl<K: CacheKey, V> NodeRef<K, V> {
    /// The entries this snapshot holds, in order.
    pub closed spec fn entries(self) -> Seq<(K::V, V)>
        decreases self,
    {
        match self.next {
            None => seq![(self.key@, self.value)],
            Some(b) => seq![(self.key@, self.value)] + b.entries(),
        }
    }
}

/// A snapshot always holds at least its own entry.
pub proof fn lemma_entries_nonempty<K: CacheKey, V>(n: NodeRef<K, V>)
    ensures
        n.entries().len() >= 1,
    decreases n,
{
    match n.next {
        None => {},
        Some(b) => {
            lemma_entries_nonempty(*b);
        },
    }
}

impl<K: CacheKey, V: Copy> NodeRef<K, V> {
    /// A snapshot of a single entry.
    pub fn init(key: K, value: V) -> (r: NodeRef<K, V>)
        ensures
            r.entries() == seq![(key@, value)],
    {
        NodeRef { key, value, next: None }
    }

    /// The entry at this snapshot's head.
    pub fn get_value(&self) -> (r: (K, V))
        ensures
            (r.0@, r.1) == self.entries()[0],
    {
        (self.key.duplicate(), self.value)
    }

    /// The snapshot from the next entry onward, and `None` exactly at the
    /// tail.
    pub fn get_next(&self) -> (r: Option<NodeRef<K, V>>)
        ensures
            r is None <==> self.entries().len() == 1,
            r matches Some(n) ==> n.entries() == self.entries().skip(1),
    {
        match &self.next {
            None => None,
            Some(b) => {
                let n = b.duplicate_chain();
                proof {
                    lemma_entries_nonempty(**b);
                }
                assert(n.entries() =~= self.entries().skip(1));
                Some(n)
            },
        }
    }

    /// A copy of the snapshot holding the same entries.
    fn duplicate_chain(&self) -> (r: NodeRef<K, V>)
        ensures
            r.entries() == self.entries(),
        decreases *self,
    {
        let next = match &self.next {
            None => None,
            Some(b) => Some(Box::new(b.duplicate_chain())),
        };
        NodeRef { key: self.key.duplicate(), value: self.value, next }
    }
}

// ---------------------------------------------------------------------
// The recency list.
// ---------------------------------------------------------------------
/// The recency list: entries ordered from most recently used at the head
/// to least recently used at the tail, with constant-position insertion at
/// the head, eviction at the tail, and detachment anywhere.
pub struct DoublyLinkedList<K: CacheKey, V> {
    elems: Vec<(K, V)>,
    /// The number of entries held; always equal to the model's length.
    pub size: usize,
}

impl<K: CacheKey, V> View for DoublyLinkedList<K, V> {
    type V = Seq<(K::V, V)>;

    closed spec fn view(&self) -> Seq<(K::V, V)> {
        self.elems@.map_values(|p: (K, V)| (p.0@, p.1))
    }
}

impl<K: CacheKey, V> DoublyLinkedList<K, V> {
    /// The structural invariant: the public counter agrees with the
    /// storage.
    pub closed spec fn wf(&self) -> bool {
        self.size == self@.len()
    }
}

impl<K: CacheKey, V: Copy> DoublyLinkedList<K, V> {
    /// The empty list.
    pub fn init() -> (r: DoublyLinkedList<K, V>)
        ensures
            r@ == Seq::<(K::V, V)>::empty(),
            r.wf(),
    {
        let r = DoublyLinkedList { elems: Vec::new(), size: 0 };
        assert(r@ =~= Seq::<(K::V, V)>::empty());
        r
    }

    /// The number of entries held: what the public `size` counter reads.
    pub fn len(&self) -> (r: usize)
        requires
            self.wf(),
        ensures
            r == self@.len(),
    {
        self.size
    }

    /// A snapshot of the whole list from the head onward, or `None` on an
    /// empty list.
    pub fn get_head(&self) -> (r: Option<NodeRef<K, V>>)
        requires
            self.wf(),
        ensures
            match r {
                None => self@.len() == 0,
                Some(n) => self@.len() > 0 && n.entries() == self@,
            },
    {
        let n: usize = self.elems.len();
        if n == 0 {
            return None;
        }
        let mut i: usize = n - 1;
        let mut acc = NodeRef {
            key: self.elems[i].0.duplicate(),
            value: self.elems[i].1,
            next: None,
        };
        assert(acc.entries() =~= self@.skip(i as int));
        while i > 0
            invariant
                self.wf(),
                i < self@.len(),
                acc.entries() == self@.skip(i as int),
            decreases i,
        {
            i = i - 1;
            acc = NodeRef {
                key: self.elems[i].0.duplicate(),
                value: self.elems[i].1,
                next: Some(Box::new(acc)),
            };
            assert(acc.entries() =~= self@.skip(i as int));
        }
        assert(self@.skip(0) =~= self@);
        Some(acc)
    }

    /// A snapshot of the tail entry alone, or `None` on an empty list.
    pub fn get_tail(&self) -> (r: Option<NodeRef<K, V>>)
        requires
            self.wf(),
        ensures
            match r {
                None => self@.len() == 0,
                Some(n) => self@.len() > 0 && n.entries() == seq![self@.last()],
            },
    {
        let n: usize = self.elems.len();
        if n == 0 {
            None
        } else {
            let node = NodeRef {
                key: self.elems[n - 1].0.duplicate(),
                value: self.elems[n - 1].1,
                next: None,
            };
            Some(node)
        }
    }

    /// The index of the first entry carrying `key`, or `None` when no
    /// entry does.
    fn find_index(&self, key: &K) -> (r: Option<usize>)
        requires
            self.wf(),
        ensures
            match r {
                Some(i) => i < self@.len() && self@[i as int].0 == key@ && key_index(self@, key@)
                    == i && has_key(self@, key@),
                None => !has_key(self@, key@),
            },
    {
        let n: usize = self.elems.len();
        let mut i: usize = 0;
        while i < n
            invariant
                self.wf(),
                n == self@.len(),
                i <= n,
                forall|j: int| 0 <= j < i ==> self@[j].0 != key@,
            decreases n - i,
        {
            if self.elems[i].0.key_eq(key) {
                proof {
                    lemma_key_index_first(self@, key@, i as int);
                }
                return Some(i);
            }
            i = i + 1;
        }
        None
    }

    /// Places `pair` at the head of the list.
    fn push_head(&mut self, pair: (K, V))
        requires
            old(self).wf(),
            old(self)@.len() < usize::MAX,
        ensures
            final(self).wf(),
            final(self)@ == seq![(pair.0@, pair.1)] + old(self)@,
    {
        self.elems.insert(0, pair);
        self.size = self.size + 1;
        assert(self@ =~= seq![(pair.0@, pair.1)] + old(self)@);
    }

    /// Detaches and returns the entry at `i`, splicing the list around it.
    fn detach_at(&mut self, i: usize) -> (r: (K, V))
        requires
            old(self).wf(),
            i < old(self)@.len(),
        ensures
            final(self).wf(),
            (r.0@, r.1) == old(self)@[i as int],
            final(self)@ == old(self)@.remove(i as int),
    {
        let pair = self.elems.remove(i);
        self.size = self.size - 1;
        assert(self@ =~= old(self)@.remove(i as int));
        pair
    }

    /// Inserts a brand-new entry at the head.
    pub fn insert(&mut self, value: (K, V))
        requires
            old(self).wf(),
            old(self)@.len() < usize::MAX,
        ensures
            final(self).wf(),
            final(self)@ == seq![(value.0@, value.1)] + old(self)@,
    {
        self.push_head(value);
    }

    /// Places the entry described by `new_head` at the head of the list.
    ///
    /// With `new_node` set, the entry is new and the list grows by one.
    /// Without it, the call stands for re-linking an entry that already
    /// lives in the list: the first entry carrying the same key is moved
    /// to the head, keeping its own value, and a key that is not present
    /// leaves the list unchanged.
    pub fn insert_node(&mut self, new_head: NodeRef<K, V>, new_node: bool)
        requires
            old(self).wf(),
            new_node ==> old(self)@.len() < usize::MAX,
        ensures
            final(self).wf(),
            new_node ==> final(self)@ == seq![new_head.entries()[0]] + old(self)@,
            !new_node ==> final(self)@ == touch(old(self)@, new_head.entries()[0].0),
    {
        if new_node {
            self.push_head((new_head.key, new_head.value));
        } else {
            match self.find_index(&new_head.key) {
                None => (),
                Some(i) => {
                    proof {
                        lemma_key_index_props(self@, new_head.key@);
                    }
                    let pair = self.detach_at(i);
                    self.push_head(pair);
                },
            }
        }
    }

    /// Moves the first entry carrying `node`'s key to the head, keeping
    /// its own value; a key that is not present leaves the list unchanged.
    pub fn requeue_node(&mut self, node: NodeRef<K, V>)
        requires
            old(self).wf(),
        ensures
            final(self).wf(),
            final(self)@ == touch(old(self)@, node.entries()[0].0),
    {
        self.insert_node(node, false);
    }

    /// Detaches and returns the tail entry, the least recently used one;
    /// an empty list stays empty and returns `None`.
    pub fn remove(&mut self) -> (r: Option<(K, V)>)
        requires
            old(self).wf(),
        ensures
            final(self).wf(),
            old(self)@.len() == 0 ==> r is None && final(self)@ == old(self)@,
            old(self)@.len() > 0 ==> final(self)@ == old(self)@.drop_last() && (r matches Some(p)
                && (p.0@, p.1) == old(self)@.last()),
    {
        match self.elems.pop() {
            None => None,
            Some(pair) => {
                self.size = self.size - 1;
                assert(self@ =~= old(self)@.drop_last());
                Some(pair)
            },
        }
    }
}

// ---------------------------------------------------------------------
// The cache.
// ---------------------------------------------------------------------
/// The cache: a recency list bounded by a fixed capacity, with one entry
/// per key.
pub struct LRU<K: CacheKey, V> {
    list: DoublyLinkedList<K, V>,
    limit: usize,
    /// The number of entries held; always equal to the model's length and
    /// never above the capacity.
    pub size: usize,
}

impl<K: CacheKey, V> View for LRU<K, V> {
    type V = Seq<(K::V, V)>;

    closed spec fn view(&self) -> Seq<(K::V, V)> {
        self.list@
    }
}

impl<K: CacheKey, V> LRU<K, V> {
    /// The capacity the cache was built with.
    pub closed spec fn limit_spec(&self) -> int {
        self.limit as int
    }

    /// The cache's invariant: the list is well formed, the counter equals
    /// the number of entries, the capacity is respected and positive, and
    /// every key maps to exactly one entry.
    pub closed spec fn wf(&self) -> bool {
        &&& self.list.wf()
        &&& self.size == self@.len()
        &&& self.size <= self.limit
        &&& 1 <= self.limit
        &&& distinct_keys(self@)
    }
}

impl<K: CacheKey, V: Copy> LRU<K, V> {
    /// An empty cache holding at most `limit` entries.  A capacity of
    /// zero is rejected: callers must ask for room for at least one entry.
    pub fn init(limit: usize) -> (r: LRU<K, V>)
        requires
            1 <= limit,
        ensures
            r.wf(),
            r@ == Seq::<(K::V, V)>::empty(),
            r.limit_spec() == limit,
    {
        LRU { list: DoublyLinkedList::init(), limit, size: 0 }
    }

    /// The number of entries held: what the public `size` counter reads.
    pub fn len(&self) -> (r: usize)
        requires
            self.wf(),
        ensures
            r == self@.len(),
    {
        self.size
    }

    /// Stores `value` under `key`.  A key already present takes the new
    /// value and becomes the most recently used; a new key enters at the
    /// head, evicting the least recently used entry first when the cache
    /// is full.
    pub fn add(&mut self, key: K, value: V)
        requires
            old(self).wf(),
        ensures
            final(self).wf(),
            final(self)@ == put_effect(old(self)@, old(self).limit_spec(), key@, value),
            final(self).limit_spec() == old(self).limit_spec(),
    {
        match self.list.find_index(&key) {
            Some(i) => {
                // The key is resident: keep its entry's key, give it the
                // new value, and move it to the head.
                let pair = self.list.detach_at(i);
                self.list.push_head((pair.0, value));
            },
            None => {
                if self.size == self.limit {
                    self.list.remove();
                    self.size = self.size - 1;
                }
                self.list.push_head((key, value));
                self.size = self.size + 1;
                proof {
                    lemma_fresh_put_shape(old(self)@, old(self).limit_spec(), key@, value);
                    assert(self@ == put_effect(old(self)@, old(self).limit_spec(), key@, value));
                }
            },
        }
    }

    /// Looks `key` up.  A hit returns the stored value and makes the entry
    /// the most recently used; a miss returns `None` and changes nothing.
    pub fn get(&mut self, key: K) -> (r: Option<V>)
        requires
            old(self).wf(),
        ensures
            final(self).wf(),
            r == lookup(old(self)@, key@),
            final(self)@ == touch(old(self)@, key@),
            final(self).limit_spec() == old(self).limit_spec(),
    {
        match self.list.find_index(&key) {
            None => None,
            Some(i) => {
                let pair = self.list.detach_at(i);
                let v = pair.1;
                self.list.push_head(pair);
                Some(v)
            },
        }
    }
}

// ---------------------------------------------------------------------
// Properties of the cache, stated and proved over the model.
// ---------------------------------------------------------------------
/// The state after a whole sequence of `put`s, applied head first.
pub open spec fn apply_puts<A, B>(s: Seq<(A, B)>, limit: int, puts: Seq<(A, B)>) -> Seq<(A, B)>
    decreases puts.len(),
{
    if puts.len() == 0 {
        s
    } else {
        apply_puts(put_effect(s, limit, puts[0].0, puts[0].1), limit, puts.skip(1))
    }
}

/// A lookup of `k` immediately after a put of `(k, v)` returns `Some(v)`,
/// whatever the cache held before and whatever its capacity.
pub proof fn lemma_get_after_put<A, B>(s: Seq<(A, B)>, limit: int, k: A, v: B)
    ensures
        lookup(put_effect(s, limit, k, v), k) == Some(v),
{
    let s2 = put_effect(s, limit, k, v);
    assert(s2[0] == (k, v));
    assert(key_index(s2, k) == 0);
    assert(has_key(s2, k));
}

/// Repeated lookups of one key with nothing stored in between return the
/// same value each time and leave both the entries' number and the state
/// reached after the first lookup unchanged.
pub proof fn lemma_repeated_get<A, B>(s: Seq<(A, B)>, k: A)
    ensures
        lookup(touch(s, k), k) == lookup(s, k),
        touch(s, k).len() == s.len(),
        touch(touch(s, k), k) == touch(s, k),
{
    if has_key(s, k) {
        lemma_key_index_props(s, k);
        let ki = key_index(s, k);
        let s2 = touch(s, k);
        assert(s2[0] == s[ki]);
        assert(key_index(s2, k) == 0);
        assert(has_key(s2, k));
        assert(touch(s2, k) =~= s2);
    }
}

/// Where the entry at position `i` of a touched state stood before the
/// touch, when the touched entry stood at `ki`.
spec fn touch_src(i: int, ki: int) -> int {
    if i == 0 {
        ki
    } else if i - 1 < ki {
        i - 1
    } else {
        i
    }
}

/// A hit on a resident key makes its entry the head and nothing more: no
/// entry enters or leaves, the keys stay distinct, the length stays.
/// Together with `lemma_promoted_evicted_last` this is the promotion
/// guarantee: right after a hit on `k`, its entry outlives every other
/// resident entry.
pub proof fn lemma_touch_promotes<A, B>(s: Seq<(A, B)>, k: A)
    requires
        distinct_keys(s),
        has_key(s, k),
    ensures
        touch(s, k).len() == s.len(),
        touch(s, k)[0].0 == k,
        distinct_keys(touch(s, k)),
        forall|k2: A| has_key(touch(s, k), k2) <==> has_key(s, k2),
{
    lemma_key_index_props(s, k);
    let ki = key_index(s, k);
    let s2 = touch(s, k);
    assert forall|i: int| 0 <= i < s2.len() implies 0 <= touch_src(i, ki) < s.len() && #[trigger] s2[i] == s[touch_src(
        i,
        ki,
    )] by {
        if i == 0 {
            assert(s2[0] == s[ki]);
        } else if i - 1 < ki {
            assert(s2[i] == s.remove(ki)[i - 1]);
            assert(s2[i] == s[i - 1]);
        } else {
            assert(s2[i] == s.remove(ki)[i - 1]);
            assert(s2[i] == s[i]);
        }
    }
    assert forall|i: int, j: int| 0 <= i < j < s2.len() implies s2[i].0 != s2[j].0 by {
        assert(s2[i] == s[touch_src(i, ki)]);
        assert(s2[j] == s[touch_src(j, ki)]);
        assert(touch_src(i, ki) != touch_src(j, ki));
    }
    assert forall|k2: A| has_key(s2, k2) implies has_key(s, k2) by {
        let i = choose|i: int| 0 <= i < s2.len() && s2[i].0 == k2;
        assert(s2[i] == s[touch_src(i, ki)]);
        assert(s[touch_src(i, ki)].0 == k2);
    }
    assert forall|k2: A| has_key(s, k2) implies has_key(s2, k2) by {
        let j = choose|j: int| 0 <= j < s.len() && s[j].0 == k2;
        if j == ki {
            assert(s2[0].0 == k2);
        } else if j < ki {
            assert(s2[j + 1] == s.remove(ki)[j]);
            assert(s2[j + 1].0 == k2);
        } else {
            assert(s2[j] == s.remove(ki)[j - 1]);
            assert(s2[j].0 == k2);
        }
    }
}

/// A put of a fresh key turns the state `s` into the new entry followed
/// by `s`, cut down to the capacity, and keeps the keys distinct.
proof fn lemma_fresh_put_shape<A, B>(s: Seq<(A, B)>, limit: int, k: A, v: B)
    requires
        1 <= limit,
        s.len() <= limit,
        distinct_keys(s),
        !has_key(s, k),
    ensures
        put_effect(s, limit, k, v) == (seq![(k, v)] + s).take(cap_at(s.len() as int + 1, limit)),
        put_effect(s, limit, k, v).len() == cap_at(s.len() as int + 1, limit),
        distinct_keys(put_effect(s, limit, k, v)),
{
    let s2 = put_effect(s, limit, k, v);
    assert(s2 =~= (seq![(k, v)] + s).take(cap_at(s.len() as int + 1, limit)));
    assert forall|i: int, j: int| 0 <= i < j < s2.len() implies s2[i].0 != s2[j].0 by {
        if i == 0 {
            assert(s2[j] == s[j - 1]);
            if s[j - 1].0 == k {
                assert(has_key(s, k));
            }
        } else {
            assert(s2[i] == s[i - 1]);
            assert(s2[j] == s[j - 1]);
        }
    }
}

/// After a run of puts whose keys are pairwise distinct and all fresh,
/// the cache holds those puts in most-recent-first order, followed by
/// what survives of the old entries, cut down to the capacity.
pub proof fn lemma_fresh_puts_shape<A, B>(s: Seq<(A, B)>, limit: int, puts: Seq<(A, B)>)
    requires
        1 <= limit,
        s.len() <= limit,
        distinct_keys(s),
        distinct_keys(puts),
        forall|i: int| 0 <= i < puts.len() ==> !(#[trigger] has_key(s, puts[i].0)),
    ensures
        apply_puts(s, limit, puts) == (puts.reverse() + s).take(
            cap_at(s.len() as int + puts.len() as int, limit),
        ),
        apply_puts(s, limit, puts).len() == cap_at(s.len() as int + puts.len() as int, limit),
        distinct_keys(apply_puts(s, limit, puts)),
    decreases puts.len(),
{
    let n = s.len() as int;
    let m = puts.len() as int;
    if m == 0 {
        assert((puts.reverse() + s).take(cap_at(n, limit)) =~= s);
    } else {
        let k = puts[0].0;
        let v = puts[0].1;
        assert(!has_key(s, k));
        lemma_fresh_put_shape(s, limit, k, v);
        let s1 = put_effect(s, limit, k, v);
        let n1 = cap_at(n + 1, limit);
        // The remaining puts are fresh for the new state too: its entries
        // are the new head and a prefix of the old state.
        assert forall|i: int| 0 <= i < puts.skip(1).len() implies !(#[trigger] has_key(
            s1,
            puts.skip(1)[i].0,
        )) by {
            let k2 = puts.skip(1)[i].0;
            assert(puts[i + 1].0 == k2);
            assert(!has_key(s, k2));
            assert(k2 != k);
            if has_key(s1, k2) {
                let j = choose|j: int| 0 <= j < s1.len() && s1[j].0 == k2;
                assert(s1[j] == (seq![(k, v)] + s)[j]);
                assert(j > 0);
                assert(s[j - 1].0 == k2);
            }
        }
        lemma_fresh_puts_shape(s1, limit, puts.skip(1));
        let lhs = apply_puts(s, limit, puts);
        let rhs = (puts.reverse() + s).take(cap_at(n + m, limit));
        assert(lhs == (puts.skip(1).reverse() + s1).take(cap_at(n1 + m - 1, limit)));
        assert(cap_at(n1 + m - 1, limit) == cap_at(n + m, limit));
        assert forall|x: int| 0 <= x < cap_at(n + m, limit) implies lhs[x] == rhs[x] by {
            if x < m - 1 {
                assert(puts.skip(1).reverse()[x] == puts.skip(1)[m - 2 - x]);
                assert(puts.skip(1)[m - 2 - x] == puts[m - 1 - x]);
                assert(puts.reverse()[x] == puts[m - 1 - x]);
            } else {
                assert(lhs[x] == s1[x - (m - 1)]);
                assert(s1[x - (m - 1)] == (seq![(k, v)] + s)[x - (m - 1)]);
                if x == m - 1 {
                    assert(puts.reverse()[x] == puts[0]);
                } else {
                    assert(puts.reverse() + s =~= puts.reverse() + s);
                    assert(rhs[x] == s[x - m]);
                }
            }
        }
        assert(lhs =~= rhs);
    }
}

/// Filling an empty cache with distinct keys, none more than the capacity
/// allows, stores every one of them: the cache's length is the number of
/// puts, each key is resident, and each still carries the value it was put
/// with.
pub proof fn lemma_distinct_puts_fill<A, B>(limit: int, puts: Seq<(A, B)>)
    requires
        1 <= limit,
        distinct_keys(puts),
        puts.len() <= limit,
    ensures
        apply_puts(Seq::empty(), limit, puts).len() == puts.len(),
        forall|i: int| 0 <= i < puts.len() ==> #[trigger] has_key(
            apply_puts(Seq::empty(), limit, puts),
            puts[i].0,
        ),
        forall|i: int| 0 <= i < puts.len() ==> #[trigger] lookup(
            apply_puts(Seq::empty(), limit, puts),
            puts[i].0,
        ) == Some(puts[i].1),
{
    let s0 = Seq::<(A, B)>::empty();
    lemma_fresh_puts_shape(s0, limit, puts);
    let res = apply_puts(s0, limit, puts);
    let m = puts.len() as int;
    assert forall|i: int| 0 <= i < m implies #[trigger] has_key(res, puts[i].0) by {
        assert(res[m - 1 - i] == (puts.reverse() + s0)[m - 1 - i]);
        assert(puts.reverse()[m - 1 - i] == puts[i]);
    }
    assert forall|i: int| 0 <= i < m implies #[trigger] lookup(res, puts[i].0) == Some(
        puts[i].1,
    ) by {
        assert(res[m - 1 - i] == (puts.reverse() + s0)[m - 1 - i]);
        assert(puts.reverse()[m - 1 - i] == puts[i]);
        assert forall|j: int| 0 <= j < m - 1 - i implies res[j].0 != puts[i].0 by {
            assert(res[j] == (puts.reverse() + s0)[j]);
            assert(puts.reverse()[j] == puts[m - 1 - j]);
        }
        lemma_key_index_first(res, puts[i].0, m - 1 - i);
    }
}

/// Pouring more distinct keys into an empty cache than the capacity
/// allows leaves it full, and the resident keys are exactly the last
/// `limit` ones put, each still carrying the value it was put with:
/// everything older has been evicted, oldest first.
pub proof fn lemma_eviction_order<A, B>(limit: int, puts: Seq<(A, B)>)
    requires
        1 <= limit,
        distinct_keys(puts),
        puts.len() > limit,
    ensures
        apply_puts(Seq::empty(), limit, puts).len() == limit,
        forall|i: int| 0 <= i < puts.len() ==> (#[trigger] has_key(
            apply_puts(Seq::empty(), limit, puts),
            puts[i].0,
        ) <==> i >= puts.len() - limit),
        forall|i: int|
            puts.len() - limit <= i < puts.len() ==> #[trigger] lookup(
                apply_puts(Seq::empty(), limit, puts),
                puts[i].0,
            ) == Some(puts[i].1),
{
    let s0 = Seq::<(A, B)>::empty();
    lemma_fresh_puts_shape(s0, limit, puts);
    let res = apply_puts(s0, limit, puts);
    let m = puts.len() as int;
    assert forall|i: int| 0 <= i < m implies (#[trigger] has_key(res, puts[i].0) <==> i >= m
        - limit) by {
        if i >= m - limit {
            assert(res[m - 1 - i] == (puts.reverse() + s0)[m - 1 - i]);
            assert(puts.reverse()[m - 1 - i] == puts[i]);
            assert(has_key(res, puts[i].0));
        }
        if has_key(res, puts[i].0) {
            let j = choose|j: int| 0 <= j < res.len() && res[j].0 == puts[i].0;
            assert(res[j] == (puts.reverse() + s0)[j]);
            assert(puts.reverse()[j] == puts[m - 1 - j]);
            assert(puts[m - 1 - j].0 == puts[i].0);
            if m - 1 - j != i {
                assert(false);
            }
        }
    }
    assert forall|i: int| m - limit <= i < m implies #[trigger] lookup(res, puts[i].0) == Some(
        puts[i].1,
    ) by {
        assert(res[m - 1 - i] == (puts.reverse() + s0)[m - 1 - i]);
        assert(puts.reverse()[m - 1 - i] == puts[i]);
        assert forall|j: int| 0 <= j < m - 1 - i implies res[j].0 != puts[i].0 by {
            assert(res[j] == (puts.reverse() + s0)[j]);
            assert(puts.reverse()[j] == puts[m - 1 - j]);
        }
        lemma_key_index_first(res, puts[i].0, m - 1 - i);
    }
}

/// Once an entry stands at the head — as it does right after a hit on its
/// key — a run of fresh-keyed puts cannot evict it before every other
/// entry then resident has been evicted: if the head's key is gone, every
/// other key then resident is gone too.
pub proof fn lemma_promoted_evicted_last<A, B>(
    s: Seq<(A, B)>,
    limit: int,
    puts: Seq<(A, B)>,
    i: int,
)
    requires
        1 <= limit,
        0 < s.len() <= limit,
        distinct_keys(s),
        distinct_keys(puts),
        forall|j: int| 0 <= j < puts.len() ==> !(#[trigger] has_key(s, puts[j].0)),
        1 <= i < s.len(),
        !has_key(apply_puts(s, limit, puts), s[0].0),
    ensures
        !has_key(apply_puts(s, limit, puts), s[i].0),
{
    lemma_fresh_puts_shape(s, limit, puts);
    let res = apply_puts(s, limit, puts);
    let n = s.len() as int;
    let m = puts.len() as int;
    let cap = cap_at(n + m, limit);
    if m < cap {
        assert(res[m] == (puts.reverse() + s)[m]);
        assert(res[m] == s[0]);
        assert(has_key(res, s[0].0));
    }
    if has_key(res, s[i].0) {
        let j = choose|j: int| 0 <= j < res.len() && res[j].0 == s[i].0;
        assert(res[j] == (puts.reverse() + s)[j]);
        assert(j < m);
        assert(puts.reverse()[j] == puts[m - 1 - j]);
        assert(has_key(s, puts[m - 1 - j].0));
    }
}

} // verus!
