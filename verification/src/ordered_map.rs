//! An ordered map: keys in ascending order, each with one value.

use vstd::prelude::*;

verus! {

/// Whether the first of two ranks comes before the second: ranks are compared
/// by their first component, then by their second.
pub open spec fn rank_lt(a: (int, int), b: (int, int)) -> bool {
    a.0 < b.0 || (a.0 == b.0 && a.1 < b.1)
}

/// A key with a total order, given by a rank that no two keys share.
pub trait OrderedKey: Sized + Copy {
    /// The rank of the key: keys are ordered as their ranks are.
    spec fn rank(&self) -> (int, int);

    /// Keys with the same rank are the same key.
    proof fn lemma_rank_injective(a: &Self, b: &Self)
        requires
            a.rank() == b.rank(),
        ensures
            a == b,
    ;

    /// Whether this key comes strictly before `other`.
    fn precedes(&self, other: &Self) -> (r: bool)
        ensures
            r == rank_lt(self.rank(), other.rank()),
    ;

    /// Whether this key is `other`.
    fn same(&self, other: &Self) -> (r: bool)
        ensures
            r == (self == other),
    ;
}

/// The rank of the key at position `i` of a sequence of entries.
pub open spec fn rank_at<K: OrderedKey, V>(s: Seq<(K, V)>, i: int) -> (int, int) {
    s[i].0.rank()
}

/// The keys of the entries are strictly ascending.
pub open spec fn ascending<K: OrderedKey, V>(s: Seq<(K, V)>) -> bool {
    forall|i: int, j: int|
        0 <= i < j < s.len() ==> rank_lt(#[trigger] rank_at(s, i), #[trigger] rank_at(s, j))
}

/// The keys stand in strictly ascending order.
pub open spec fn keys_ascending<K: OrderedKey>(ks: Seq<K>) -> bool {
    forall|i: int, j: int|
        0 <= i < j < ks.len() ==> rank_lt(#[trigger] ks[i].rank(), #[trigger] ks[j].rank())
}

/// The keys of the entries, in the order of the entries.
pub open spec fn keys_of<K, V>(s: Seq<(K, V)>) -> Seq<K> {
    Seq::new(s.len(), |i: int| s[i].0)
}

/// Some entry has the key `k`.
pub open spec fn holds_key<K, V>(s: Seq<(K, V)>, k: K) -> bool {
    exists|i: int| 0 <= i < s.len() && (#[trigger] s[i]).0 == k
}

/// A position at which the key `k` stands, if any entry has it.
pub open spec fn slot_of<K, V>(s: Seq<(K, V)>, k: K) -> int {
    choose|i: int| 0 <= i < s.len() && (#[trigger] s[i]).0 == k
}

/// The map that a sequence of entries stands for.
pub open spec fn as_map<K, V>(s: Seq<(K, V)>) -> Map<K, V> {
    Map::new(|k: K| holds_key(s, k), |k: K| s[slot_of(s, k)].1)
}

/// In ascending entries each key stands at one position only, and the map
/// gives it the value found there.
pub proof fn lemma_slot<K: OrderedKey, V>(s: Seq<(K, V)>, i: int)
    requires
        ascending(s),
        0 <= i < s.len(),
    ensures
        holds_key(s, s[i].0),
        slot_of(s, s[i].0) == i,
        as_map(s).contains_key(s[i].0),
        as_map(s)[s[i].0] == s[i].1,
{
    let k = s[i].0;
    assert(s[i].0 == k);
    let j = slot_of(s, k);
    assert(0 <= j < s.len() && s[j].0 == k);
    if j < i {
        assert(rank_lt(rank_at(s, j), rank_at(s, i)));
    } else if i < j {
        assert(rank_lt(rank_at(s, i), rank_at(s, j)));
    }
}

/// Ascending entries hold no key twice, and the map has as many keys as
/// there are entries.
pub proof fn lemma_size<K: OrderedKey, V>(s: Seq<(K, V)>)
    requires
        ascending(s),
    ensures
        as_map(s).dom().finite(),
        as_map(s).dom().len() == s.len(),
    decreases s.len(),
{
    if s.len() == 0 {
        assert(as_map(s).dom() =~= Set::<K>::empty());
    } else {
        let t = s.drop_last();
        let n = s.len() - 1;
        assert forall|i: int, j: int| 0 <= i < j < t.len() implies rank_lt(
            #[trigger] rank_at(t, i),
            #[trigger] rank_at(t, j),
        ) by {
            assert(rank_at(t, i) == rank_at(s, i));
            assert(rank_at(t, j) == rank_at(s, j));
        }
        lemma_size(t);
        let k = s[n].0;
        if holds_key(t, k) {
            let j = slot_of(t, k);
            assert(t[j].0 == k);
            assert(rank_lt(rank_at(s, j), rank_at(s, n)));
        }
        assert forall|x: K| as_map(s).dom().contains(x) <==> as_map(t).dom().insert(
            k,
        ).contains(x) by {
            if holds_key(s, x) {
                let j = slot_of(s, x);
                if j < n {
                    assert(t[j].0 == x);
                }
            }
            if holds_key(t, x) {
                let j = slot_of(t, x);
                assert(s[j].0 == x);
            }
            if x == k {
                assert(s[n].0 == x);
            }
        }
        assert(as_map(s).dom() =~= as_map(t).dom().insert(k));
    }
}

/// The keys of ascending entries are ascending, and they are the keys of the
/// map.
pub proof fn lemma_keys<K: OrderedKey, V>(s: Seq<(K, V)>)
    requires
        ascending(s),
    ensures
        keys_ascending(keys_of(s)),
        keys_of(s).to_set() == as_map(s).dom(),
{
    let ks = keys_of(s);
    assert forall|i: int, j: int| 0 <= i < j < ks.len() implies rank_lt(
        #[trigger] ks[i].rank(),
        #[trigger] ks[j].rank(),
    ) by {
        assert(rank_lt(rank_at(s, i), rank_at(s, j)));
    }
    assert forall|x: K| ks.to_set().contains(x) <==> as_map(s).dom().contains(x) by {
        if ks.contains(x) {
            let i = choose|i: int| 0 <= i < ks.len() && ks[i] == x;
            assert(s[i].0 == x);
        }
        if holds_key(s, x) {
            let i = slot_of(s, x);
            assert(0 <= i < s.len() && s[i].0 == x);
            assert(ks[i] == x);
        }
    }
    assert(ks.to_set() =~= as_map(s).dom());
}

/// Putting a new key at the position where it belongs keeps the entries
/// ascending and adds the key to the map.
pub proof fn lemma_insert_at<K: OrderedKey, V>(s: Seq<(K, V)>, at: int, k: K, v: V)
    requires
        ascending(s),
        0 <= at <= s.len(),
        forall|j: int| 0 <= j < at ==> rank_lt(#[trigger] rank_at(s, j), k.rank()),
        forall|j: int| at <= j < s.len() ==> rank_lt(k.rank(), #[trigger] rank_at(s, j)),
    ensures
        ascending(s.insert(at, (k, v))),
        as_map(s.insert(at, (k, v))) == as_map(s).insert(k, v),
{
    let t = s.insert(at, (k, v));
    assert forall|i: int, j: int| 0 <= i < j < t.len() implies rank_lt(
        #[trigger] rank_at(t, i),
        #[trigger] rank_at(t, j),
    ) by {
        let si = if i < at {
            i
        } else {
            i - 1
        };
        let sj = if j < at {
            j
        } else {
            j - 1
        };
        if i != at {
            assert(rank_at(t, i) == rank_at(s, si));
        }
        if j != at {
            assert(rank_at(t, j) == rank_at(s, sj));
        }
        if i != at && j != at {
            assert(rank_lt(rank_at(s, si), rank_at(s, sj)));
        }
    }
    assert forall|x: K| as_map(t).dom().contains(x) <==> as_map(s).insert(k, v).dom().contains(
        x,
    ) by {
        if holds_key(t, x) {
            let j = slot_of(t, x);
            if j < at {
                assert(s[j].0 == x);
            } else if j > at {
                assert(s[j - 1].0 == x);
            }
        }
        if holds_key(s, x) {
            let j = slot_of(s, x);
            if j < at {
                assert(t[j].0 == x);
            } else {
                assert(t[j + 1].0 == x);
            }
        }
        if x == k {
            assert(t[at].0 == x);
        }
    }
    assert forall|x: K| as_map(t).dom().contains(x) implies as_map(t)[x] == as_map(s).insert(
        k,
        v,
    )[x] by {
        let j = slot_of(t, x);
        assert(0 <= j < t.len() && t[j].0 == x);
        lemma_slot(t, j);
        if j < at {
            lemma_slot(s, j);
            if x == k {
                assert(rank_lt(rank_at(s, j), k.rank()));
            }
        } else if j > at {
            lemma_slot(s, j - 1);
            if x == k {
                assert(rank_lt(k.rank(), rank_at(s, j - 1)));
            }
        }
    }
    assert(as_map(t) =~= as_map(s).insert(k, v));
}

/// Giving the key at a position a new value keeps the entries ascending and
/// gives the key the new value in the map.
pub proof fn lemma_replace_at<K: OrderedKey, V>(s: Seq<(K, V)>, at: int, v: V)
    requires
        ascending(s),
        0 <= at < s.len(),
    ensures
        ascending(s.update(at, (s[at].0, v))),
        as_map(s.update(at, (s[at].0, v))) == as_map(s).insert(s[at].0, v),
{
    let k = s[at].0;
    let t = s.update(at, (k, v));
    assert forall|i: int, j: int| 0 <= i < j < t.len() implies rank_lt(
        #[trigger] rank_at(t, i),
        #[trigger] rank_at(t, j),
    ) by {
        assert(rank_at(t, i) == rank_at(s, i));
        assert(rank_at(t, j) == rank_at(s, j));
    }
    assert forall|x: K| as_map(t).dom().contains(x) <==> as_map(s).insert(k, v).dom().contains(
        x,
    ) by {
        if holds_key(t, x) {
            let j = slot_of(t, x);
            assert(0 <= j < t.len() && t[j].0 == x);
            assert(s[j].0 == x);
        }
        if holds_key(s, x) {
            let j = slot_of(s, x);
            assert(0 <= j < s.len() && s[j].0 == x);
            assert(t[j].0 == x);
        }
        if x == k {
            assert(t[at].0 == x);
        }
    }
    assert forall|x: K| as_map(t).dom().contains(x) implies as_map(t)[x] == as_map(s).insert(
        k,
        v,
    )[x] by {
        let j = slot_of(t, x);
        assert(0 <= j < t.len() && t[j].0 == x);
        lemma_slot(t, j);
        lemma_slot(s, j);
        if j < at {
            assert(rank_lt(rank_at(s, j), rank_at(s, at)));
        } else if j > at {
            assert(rank_lt(rank_at(s, at), rank_at(s, j)));
        }
    }
    assert(as_map(t) =~= as_map(s).insert(k, v));
}

/// A map from keys to values that keeps its keys in ascending order.
pub struct OrderedMap<K, V> {
    entries: Vec<(K, V)>,
}

impl<K: OrderedKey, V> View for OrderedMap<K, V> {
    type V = Map<K, V>;

    /// The map from each key to its value.
    open spec fn view(&self) -> Map<K, V> {
        as_map(self.entries())
    }
}

impl<K: OrderedKey, V> OrderedMap<K, V> {
    /// The entries of the map, in the order in which a scan meets them.
    pub closed spec fn entries(&self) -> Seq<(K, V)> {
        self.entries@
    }

    /// The keys stand in strictly ascending order.
    pub open spec fn wf(&self) -> bool {
        ascending(self.entries())
    }

    /// An empty map.
    pub fn new() -> (m: Self)
        ensures
            m.wf(),
            m.entries() == Seq::<(K, V)>::empty(),
            m@ == Map::<K, V>::empty(),
    {
        let m = OrderedMap { entries: Vec::new() };
        assert(m@ =~= Map::<K, V>::empty());
        m
    }

    /// The number of entries.
    pub fn len(&self) -> (n: usize)
        ensures
            n == self.entries().len(),
    {
        self.entries.len()
    }

    /// The first position whose key does not come before `k`.
    fn lower_bound(&self, k: &K) -> (at: usize)
        requires
            self.wf(),
        ensures
            at <= self.entries().len(),
            forall|j: int| 0 <= j < at ==> rank_lt(#[trigger] rank_at(self.entries(), j), k.rank()),
            forall|j: int|
                at <= j < self.entries().len() ==> !rank_lt(
                    #[trigger] rank_at(self.entries(), j),
                    k.rank(),
                ),
    {
        let mut lo: usize = 0;
        let mut hi: usize = self.entries.len();
        while lo < hi
            invariant
                self.wf(),
                lo <= hi <= self.entries().len(),
                forall|j: int|
                    0 <= j < lo ==> rank_lt(#[trigger] rank_at(self.entries(), j), k.rank()),
                forall|j: int|
                    hi <= j < self.entries().len() ==> !rank_lt(
                        #[trigger] rank_at(self.entries(), j),
                        k.rank(),
                    ),
            decreases hi - lo,
        {
            let mid: usize = lo + (hi - lo) / 2;
            let before = self.entries[mid].0.precedes(k);
            assert(before == rank_lt(rank_at(self.entries(), mid as int), k.rank()));
            if before {
                assert forall|j: int| 0 <= j < mid + 1 implies rank_lt(
                    #[trigger] rank_at(self.entries(), j),
                    k.rank(),
                ) by {
                    if j < mid {
                        assert(rank_lt(
                            rank_at(self.entries(), j),
                            rank_at(self.entries(), mid as int),
                        ));
                    }
                }
                lo = mid + 1;
            } else {
                assert forall|j: int| mid <= j < self.entries().len() implies !rank_lt(
                    #[trigger] rank_at(self.entries(), j),
                    k.rank(),
                ) by {
                    if mid < j {
                        assert(rank_lt(
                            rank_at(self.entries(), mid as int),
                            rank_at(self.entries(), j),
                        ));
                    }
                }
                hi = mid;
            }
        }
        lo
    }

    /// The position of the key `k`, if the map holds it.
    pub fn position(&self, k: &K) -> (at: Option<usize>)
        requires
            self.wf(),
        ensures
            match at {
                Some(i) => i < self.entries().len() && self.entries()[i as int].0 == *k,
                None => !self@.contains_key(*k),
            },
    {
        let at = self.lower_bound(k);
        if at < self.entries.len() && self.entries[at].0.same(k) {
            Some(at)
        } else {
            proof {
                if holds_key(self.entries(), *k) {
                    let j = slot_of(self.entries(), *k);
                    assert(self.entries()[j].0 == *k);
                    if j < at {
                        assert(rank_lt(rank_at(self.entries(), j), k.rank()));
                    } else if j > at {
                        assert(!rank_lt(rank_at(self.entries(), at as int), k.rank()));
                        assert(rank_lt(
                            rank_at(self.entries(), at as int),
                            rank_at(self.entries(), j),
                        ));
                        if rank_at(self.entries(), at as int) == k.rank() {
                            K::lemma_rank_injective(&self.entries()[at as int].0, k);
                        }
                    }
                }
            }
            None
        }
    }

    /// Whether the map holds the key `k`.
    pub fn contains_key(&self, k: &K) -> (r: bool)
        requires
            self.wf(),
        ensures
            r == self@.contains_key(*k),
    {
        match self.position(k) {
            Some(i) => {
                proof {
                    lemma_slot(self.entries(), i as int);
                }
                true
            },
            None => false,
        }
    }

    /// The value of the key `k`, if the map holds it.
    pub fn get(&self, k: &K) -> (r: Option<&V>)
        requires
            self.wf(),
        ensures
            match r {
                Some(v) => self@.contains_key(*k) && *v == self@[*k],
                None => !self@.contains_key(*k),
            },
    {
        match self.position(k) {
            Some(i) => {
                proof {
                    lemma_slot(self.entries(), i as int);
                }
                Some(&self.entries[i].1)
            },
            None => None,
        }
    }

    /// The key at position `i` of a scan.
    pub fn key_at(&self, i: usize) -> (k: &K)
        requires
            i < self.entries().len(),
        ensures
            *k == self.entries()[i as int].0,
    {
        &self.entries[i].0
    }

    /// The value at position `i` of a scan.
    pub fn value_at(&self, i: usize) -> (v: &V)
        requires
            i < self.entries().len(),
        ensures
            *v == self.entries()[i as int].1,
    {
        &self.entries[i].1
    }

    /// Gives the key `k` the value `v`: a key that the map holds keeps its
    /// position and has its value replaced, a new key enters at the position
    /// that keeps the keys ascending.
    pub fn insert(&mut self, k: K, v: V)
        requires
            old(self).wf(),
        ensures
            final(self).wf(),
            final(self)@ == old(self)@.insert(k, v),
    {
        let at = self.lower_bound(&k);
        if at < self.entries.len() && self.entries[at].0.same(&k) {
            proof {
                lemma_replace_at(self.entries(), at as int, v);
            }
            self.entries[at] = (k, v);
        } else {
            proof {
                assert forall|j: int| at <= j < self.entries().len() implies rank_lt(
                    k.rank(),
                    #[trigger] rank_at(self.entries(), j),
                ) by {
                    assert(!rank_lt(rank_at(self.entries(), at as int), k.rank()));
                    if at < j {
                        assert(rank_lt(
                            rank_at(self.entries(), at as int),
                            rank_at(self.entries(), j),
                        ));
                    }
                    if rank_at(self.entries(), j) == k.rank() {
                        K::lemma_rank_injective(&self.entries()[j].0, &k);
                    }
                }
                lemma_insert_at(self.entries(), at as int, k, v);
            }
            self.entries.insert(at, (k, v));
        }
    }
}

} // verus!
