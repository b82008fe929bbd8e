//! The per-track beat vector index.
//!
//! A small exact nearest-neighbour structure over fixed-dimension integer
//! feature vectors. Entries are keyed by beat ordinal; a search ranks
//! entries by squared Euclidean distance to the query, ascending, with ties
//! broken by smaller key, so the ranking is a function of the entry set
//! alone — the order in which entries were added never shows.

use vstd::prelude::*;

verus! {

/// Dimensionality of the beat feature vectors.
pub const BEAT_INDEX_DIMS: usize = 512;

/// The capacity a fresh track index reserves.
pub const BEAT_INDEX_CAPACITY: usize = 1000;

/// Largest admissible magnitude of one feature component. Feature vectors
/// are fixed-point values scaled into this range; the bound keeps every
/// distance computation exact in 64 bits.
pub const FEATURE_LIMIT: i64 = 0x10_0000;

/// Largest admissible dimensionality.
pub const MAX_INDEX_DIMS: usize = 4096;

#[derive(Clone, Copy, Debug, PartialEq, Eq, Structural)]
pub enum IndexError {
    /// An add would grow the index past its capacity.
    CapacityExhausted,
    /// The vector's dimensionality differs from the index's.
    DimensionMismatch,
    /// A search on an index with no entries.
    EmptyIndex,
}

/// Every component of the vector lies within the fixed-point feature range.
pub open spec fn features_bounded(v: Seq<i64>) -> bool {
    forall|i: int| 0 <= i < v.len() ==> -FEATURE_LIMIT <= #[trigger] v[i] <= FEATURE_LIMIT
}

/// Squared Euclidean distance between two equal-length vectors.
pub open spec fn spec_sq_dist(a: Seq<i64>, b: Seq<i64>) -> int
    recommends
        a.len() == b.len(),
    decreases a.len(),
{
    if a.len() == 0 {
        0
    } else {
        spec_sq_dist(a.drop_last(), b.drop_last()) + (a.last() - b.last()) * (a.last() - b.last())
    }
}

/// The distance of two bounded vectors is non-negative and at most
/// `len * (2 * FEATURE_LIMIT)^2`.
pub proof fn lemma_sq_dist_bound(a: Seq<i64>, b: Seq<i64>)
    requires
        a.len() == b.len(),
        features_bounded(a),
        features_bounded(b),
    ensures
        0 <= spec_sq_dist(a, b) <= a.len() * (4 * FEATURE_LIMIT * FEATURE_LIMIT),
    decreases a.len(),
{
    if a.len() > 0 {
        assert(features_bounded(a.drop_last()));
        assert(features_bounded(b.drop_last()));
        lemma_sq_dist_bound(a.drop_last(), b.drop_last());
        let d = a.last() - b.last();
        assert(0 <= d * d <= 4 * FEATURE_LIMIT * FEATURE_LIMIT) by (nonlinear_arith)
            requires
                -2 * FEATURE_LIMIT <= d <= 2 * FEATURE_LIMIT,
        ;
        assert((a.len() - 1) * (4 * FEATURE_LIMIT * FEATURE_LIMIT) + (4 * FEATURE_LIMIT
            * FEATURE_LIMIT) == a.len() * (4 * FEATURE_LIMIT * FEATURE_LIMIT)) by (nonlinear_arith);
    }
}

/// Ranking order on `(key, distance)` result pairs: ascending by distance,
/// ties broken by smaller key.
pub open spec fn rank_lt(x: (u64, u64), y: (u64, u64)) -> bool {
    x.1 < y.1 || (x.1 == y.1 && x.0 < y.0)
}

/// The per-track nearest-neighbour index.
#[derive(Debug)]
pub struct BeatIndex {
    pub dims: usize,
    pub capacity: usize,
    pub entries: Vec<(u64, Vec<i64>)>,
}

impl BeatIndex {
    /// Keys are unique; every stored vector has the index's dimensionality
    /// and bounded components.
    pub open spec fn wf(self) -> bool {
        &&& 1 <= self.dims <= MAX_INDEX_DIMS
        &&& self.entries.len() <= self.capacity
        &&& forall|i: int, j: int|
            #![trigger self.entries[i].0, self.entries[j].0]
            0 <= i < j < self.entries.len() ==> self.entries[i].0 != self.entries[j].0
        &&& forall|i: int|
            0 <= i < self.entries.len() ==> (#[trigger] self.entries[i].1).len() == self.dims
                && features_bounded(self.entries[i].1@)
    }

    /// The entries as plain `(key, vector)` pairs. The index's observable
    /// content is this sequence up to reordering.
    pub open spec fn pairs(self) -> Seq<(u64, Seq<i64>)> {
        self.entries@.map(|i: int, e: (u64, Vec<i64>)| (e.0, e.1@))
    }

    pub open spec fn has_key(self, key: u64) -> bool {
        exists|i: int| 0 <= i < self.entries.len() && (#[trigger] self.entries[i].0) == key
    }

    /// The index holds `v` under `key`.
    pub open spec fn stores(self, key: u64, v: Seq<i64>) -> bool {
        exists|i: int|
            0 <= i < self.entries.len() && (#[trigger] self.entries[i]).0 == key
                && self.entries[i].1@ == v
    }

    pub open spec fn spec_len(self) -> int {
        self.entries.len() as int
    }

    pub fn new(dims: usize, capacity: usize) -> (r: BeatIndex)
        requires
            1 <= dims <= MAX_INDEX_DIMS,
        ensures
            r.wf(),
            r.dims == dims,
            r.capacity == capacity,
            r.entries.len() == 0,
    {
        BeatIndex { dims, capacity, entries: Vec::new() }
    }

    pub fn len(&self) -> (r: usize)
        ensures
            r == self.entries.len(),
    {
        self.entries.len()
    }

    /// The position of `key` among the entries, if present.
    fn find(&self, key: u64) -> (r: Option<usize>)
        ensures
            match r {
                Some(i) => i < self.entries.len() && self.entries[i as int].0 == key,
                None => !self.has_key(key),
            },
    {
        let n = self.entries.len();
        let mut i: usize = 0;
        while i < n
            invariant
                i <= n,
                n == self.entries.len(),
                forall|j: int| 0 <= j < i ==> (#[trigger] self.entries[j].0) != key,
            decreases n - i,
        {
            if self.entries[i].0 == key {
                return Some(i);
            }
            i = i + 1;
        }
        None
    }

    /// Inserts or replaces the vector stored under `key`. Fails exactly when
    /// the vector's dimensionality differs from the index's, or when the key
    /// is new and the index is full; on failure the index is unchanged.
    pub fn add(&mut self, key: u64, vector: Vec<i64>) -> (r: Result<(), IndexError>)
        requires
            old(self).wf(),
            features_bounded(vector@),
        ensures
            final(self).wf(),
            final(self).dims == old(self).dims,
            final(self).capacity == old(self).capacity,
            match r {
                Ok(()) => {
                    &&& vector.len() == old(self).dims
                    &&& if old(self).has_key(key) {
                        exists|i: int|
                            0 <= i < old(self).entries.len() && old(self).entries[i as int].0
                                == key && final(self).entries@ == old(self).entries@.update(
                                i,
                                (key, vector),
                            )
                    } else {
                        final(self).entries@ == old(self).entries@.push((key, vector))
                    }
                },
                Err(e) => {
                    &&& *final(self) == *old(self)
                    &&& (e == IndexError::DimensionMismatch <==> vector.len() != old(self).dims)
                    &&& e != IndexError::EmptyIndex
                    &&& e == IndexError::CapacityExhausted ==> !old(self).has_key(key) && old(
                        self,
                    ).entries.len() == old(self).capacity
                },
            },
    {
        if vector.len() != self.dims {
            return Err(IndexError::DimensionMismatch);
        }
        match self.find(key) {
            Some(i) => {
                self.entries[i] = (key, vector);
                proof {
                    assert(self.entries@ == old(self).entries@.update(i as int, (key, vector)));
                }
                Ok(())
            },
            None => {
                if self.entries.len() == self.capacity {
                    return Err(IndexError::CapacityExhausted);
                }
                self.entries.push((key, vector));
                Ok(())
            },
        }
    }

    /// The `(key, distance)` pair an entry scores as against a query.
    pub open spec fn score_of(q: Seq<i64>, p: (u64, Seq<i64>)) -> (u64, u64) {
        (p.0, spec_sq_dist(q, p.1) as u64)
    }

    /// Every entry scored against the query, in entry order.
    pub open spec fn scored(self, q: Seq<i64>) -> Seq<(u64, u64)> {
        self.pairs().map_values(|p: (u64, Seq<i64>)| BeatIndex::score_of(q, p))
    }

    /// `x` ranks strictly before every other element of `s`: the unique
    /// minimum under the ranking order.
    pub open spec fn is_min_of(s: Set<(u64, u64)>, x: (u64, u64)) -> bool {
        s.contains(x) && forall|y: (u64, u64)| #[trigger] s.contains(y) && y != x ==> rank_lt(x, y)
    }

    /// The ranked selection of up to `k` elements of `s`: repeatedly the
    /// minimum under the ranking order. A pure function of the set and `k`,
    /// so any two indexes holding the same scored pairs rank alike.
    pub open spec fn ranked(s: Set<(u64, u64)>, k: nat) -> Seq<(u64, u64)>
        decreases k,
    {
        if k == 0 {
            Seq::empty()
        } else if exists|x: (u64, u64)| BeatIndex::is_min_of(s, x) {
            let m = choose|x: (u64, u64)| BeatIndex::is_min_of(s, x);
            seq![m] + BeatIndex::ranked(s.remove(m), (k - 1) as nat)
        } else {
            Seq::empty()
        }
    }

    /// Exact squared Euclidean distance between two vectors of the index's
    /// dimensionality.
    fn distance(&self, a: &Vec<i64>, b: &Vec<i64>) -> (r: u64)
        requires
            self.wf(),
            a.len() == self.dims,
            b.len() == self.dims,
            features_bounded(a@),
            features_bounded(b@),
        ensures
            r == spec_sq_dist(a@, b@),
    {
        let n = a.len();
        let mut acc: u64 = 0;
        let mut i: usize = 0;
        proof {
            assert(a@.take(0) =~= Seq::<i64>::empty());
            assert(b@.take(0) =~= Seq::<i64>::empty());
        }
        while i < n
            invariant
                i <= n,
                n == a.len() == b.len(),
                n <= MAX_INDEX_DIMS,
                features_bounded(a@),
                features_bounded(b@),
                acc == spec_sq_dist(a@.take(i as int), b@.take(i as int)),
                acc <= (i as int) * (4 * FEATURE_LIMIT * FEATURE_LIMIT),
            decreases n - i,
        {
            let d: i64 = a[i] - b[i];
            proof {
                assert(0 <= d * d <= 4 * FEATURE_LIMIT * FEATURE_LIMIT) by (nonlinear_arith)
                    requires
                        -2 * FEATURE_LIMIT <= d <= 2 * FEATURE_LIMIT,
                ;
                assert((i as int) * (4 * FEATURE_LIMIT * FEATURE_LIMIT) + (4 * FEATURE_LIMIT
                    * FEATURE_LIMIT) == (i + 1) * (4 * FEATURE_LIMIT * FEATURE_LIMIT)) by (
                nonlinear_arith);
                assert((i + 1) * (4 * FEATURE_LIMIT * FEATURE_LIMIT) <= (MAX_INDEX_DIMS as int) * (
                4 * FEATURE_LIMIT * FEATURE_LIMIT)) by (nonlinear_arith)
                    requires
                        i + 1 <= MAX_INDEX_DIMS,
                ;
                assert(a@.take(i + 1).drop_last() =~= a@.take(i as int));
                assert(b@.take(i + 1).drop_last() =~= b@.take(i as int));
                assert(a@.take(i + 1).last() == a@[i as int]);
            }
            let sq: i64 = d * d;
            acc = acc + (sq as u64);
            i = i + 1;
        }
        proof {
            assert(a@.take(n as int) =~= a@);
            assert(b@.take(n as int) =~= b@);
        }
        acc
    }

    /// Returns up to `count` entries nearest to the query, ascending by
    /// distance, ties broken by smaller key: exactly the ranked selection
    /// over the scored entry set. Fails when the query's dimensionality
    /// differs from the index's, or when the index is empty.
    pub fn search(&self, query: &Vec<i64>, count: usize) -> (r: Result<
        Vec<(u64, u64)>,
        IndexError,
    >)
        requires
            self.wf(),
            features_bounded(query@),
        ensures
            match r {
                Ok(res) => {
                    &&& query.len() == self.dims
                    &&& self.entries.len() > 0
                    &&& res@.len() == if count <= self.entries.len() {
                        count as int
                    } else {
                        self.entries.len() as int
                    }
                    &&& res@ == BeatIndex::ranked(
                        self.scored(query@).to_set(),
                        res@.len() as nat,
                    )
                    &&& forall|i: int, j: int|
                        #![trigger res@[i], res@[j]]
                        0 <= i < j < res@.len() ==> rank_lt(res@[i], res@[j])
                    &&& forall|i: int|
                        0 <= i < res@.len() ==> self.scored(query@).contains(#[trigger] res@[i])
                    &&& forall|i: int, x: (u64, u64)|
                        #![trigger res@[i], self.scored(query@).to_set().contains(x)]
                        0 <= i < res@.len() && self.scored(query@).to_set().contains(x)
                            && !res@.contains(x) ==> rank_lt(res@[i], x)
                },
                Err(e) => {
                    &&& (e == IndexError::DimensionMismatch <==> query.len() != self.dims)
                    &&& (e == IndexError::EmptyIndex <==> query.len() == self.dims
                        && self.entries.len() == 0)
                    &&& e != IndexError::CapacityExhausted
                },
            },
    {
        if query.len() != self.dims {
            return Err(IndexError::DimensionMismatch);
        }
        let n = self.entries.len();
        if n == 0 {
            return Err(IndexError::EmptyIndex);
        }
        let mut pool: Vec<(u64, u64)> = Vec::new();
        let mut i: usize = 0;
        proof {
            assert(pool@ =~= self.scored(query@).take(0));
        }
        while i < n
            invariant
                i <= n,
                n == self.entries.len(),
                self.wf(),
                query.len() == self.dims,
                features_bounded(query@),
                pool@ == self.scored(query@).take(i as int),
            decreases n - i,
        {
            let e = &self.entries[i];
            let d = self.distance(query, &e.1);
            proof {
                lemma_sq_dist_bound(query@, e.1@);
            }
            pool.push((e.0, d));
            proof {
                assert(pool@ =~= self.scored(query@).take(i as int + 1));
            }
            i = i + 1;
        }
        proof {
            assert(pool@ =~= self.scored(query@));
        }
        let ghost total = self.scored(query@).to_set();
        proof {
            assert forall|p: int, j: int|
                #![trigger pool@[p], pool@[j]]
                0 <= p < j < pool@.len() implies pool@[p] != pool@[j] by {
                assert(pool@[p].0 == self.entries[p].0);
                assert(pool@[j].0 == self.entries[j].0);
            }
            assert(pool@.no_duplicates());
        }
        let kk = if count <= n {
            count
        } else {
            n
        };
        let mut res: Vec<(u64, u64)> = Vec::new();
        proof {
            assert(res@ + BeatIndex::ranked(pool@.to_set(), kk as nat) =~= BeatIndex::ranked(
                total,
                kk as nat,
            ));
        }
        while res.len() < kk
            invariant
                kk <= n,
                n == self.entries.len(),
                res@.len() <= kk,
                pool@.len() + res@.len() == n,
                pool@.no_duplicates(),
                total == self.scored(query@).to_set(),
                forall|x: (u64, u64)| #[trigger] pool@.contains(x) ==> total.contains(x),
                forall|p: int| 0 <= p < res@.len() ==> total.contains(#[trigger] res@[p]),
                forall|x: (u64, u64)|
                    #[trigger] total.contains(x) && !res@.contains(x) ==> pool@.contains(x),
                forall|p: int| 0 <= p < res@.len() ==> !pool@.contains(#[trigger] res@[p]),
                forall|p: int, j: int|
                    #![trigger res@[p], res@[j]]
                    0 <= p < j < res@.len() ==> rank_lt(res@[p], res@[j]),
                forall|p: int, x: (u64, u64)|
                    #![trigger res@[p], pool@.contains(x)]
                    0 <= p < res@.len() && pool@.contains(x) ==> rank_lt(res@[p], x),
                BeatIndex::ranked(total, kk as nat) == res@ + BeatIndex::ranked(
                    pool@.to_set(),
                    (kk - res@.len()) as nat,
                ),
            decreases kk - res@.len(),
        {
            let m = min_index(&pool);
            let x = pool[m];
            proof {
                assert forall|y: (u64, u64)|
                    pool@.to_set().contains(y) && y != x implies rank_lt(x, y) by {
                    let j = choose|j: int| 0 <= j < pool@.len() && pool@[j] == y;
                    assert(rank_le(pool@[m as int], pool@[j]));
                }
                assert(BeatIndex::is_min_of(pool@.to_set(), x));
                let picked = choose|z: (u64, u64)| BeatIndex::is_min_of(pool@.to_set(), z);
                lemma_min_unique(pool@.to_set(), picked, x);
                lemma_remove_at(pool@, m as int);
            }
            let ghost old_res = res@;
            let ghost old_pool = pool@;
            res.push(x);
            pool.remove(m);
            proof {
                assert(res@ =~= old_res + seq![x]);
                assert forall|y: (u64, u64)| #[trigger] pool@.contains(y) implies total.contains(
                    y,
                ) by {
                    assert(y != x);
                    assert(old_pool.contains(y));
                }
                assert forall|y: (u64, u64)|
                    #[trigger] total.contains(y) && !res@.contains(y) implies pool@.contains(
                    y,
                ) by {
                    assert(res@[res@.len() - 1] == x);
                    assert(y != x);
                    assert forall|j: int| 0 <= j < old_res.len() implies old_res[j] != y by {
                        assert(res@[j] == old_res[j]);
                    }
                    assert(!old_res.contains(y));
                    assert(old_pool.contains(y));
                }
                assert(BeatIndex::ranked(old_pool.to_set(), (kk - old_res.len()) as nat)
                    == seq![x] + BeatIndex::ranked(
                    old_pool.to_set().remove(x),
                    (kk - old_res.len() - 1) as nat,
                ));
                assert(old_res + (seq![x] + BeatIndex::ranked(
                    pool@.to_set(),
                    (kk - res@.len()) as nat,
                )) =~= res@ + BeatIndex::ranked(pool@.to_set(), (kk - res@.len()) as nat));
            }
        }
        proof {
            assert(BeatIndex::ranked(pool@.to_set(), 0) =~= Seq::<(u64, u64)>::empty());
            assert(res@ + Seq::<(u64, u64)>::empty() =~= res@);
            assert(res@ == BeatIndex::ranked(total, kk as nat));
        }
        Ok(res)
    }
}

/// The ranking order is reflexive-or-strict: `rank_lt` or equal.
pub open spec fn rank_le(x: (u64, u64), y: (u64, u64)) -> bool {
    rank_lt(x, y) || x == y
}

/// Position of a pair that ranks no later than every element.
fn min_index(v: &Vec<(u64, u64)>) -> (r: usize)
    requires
        v.len() > 0,
    ensures
        r < v.len(),
        forall|i: int| 0 <= i < v.len() ==> rank_le(v@[r as int], #[trigger] v@[i]),
{
    let mut best: usize = 0;
    let mut i: usize = 1;
    while i < v.len()
        invariant
            best < i,
            i <= v.len(),
            forall|j: int| 0 <= j < i ==> rank_le(v@[best as int], #[trigger] v@[j]),
        decreases v.len() - i,
    {
        let cur = v[i];
        let b = v[best];
        if cur.1 < b.1 || (cur.1 == b.1 && cur.0 < b.0) {
            best = i;
        }
        i = i + 1;
    }
    best
}

/// A set has at most one minimum under the ranking order.
proof fn lemma_min_unique(s: Set<(u64, u64)>, a: (u64, u64), b: (u64, u64))
    requires
        BeatIndex::is_min_of(s, a),
        BeatIndex::is_min_of(s, b),
    ensures
        a == b,
{
    if a != b {
        assert(rank_lt(a, b));
        assert(rank_lt(b, a));
        assert(false);
    }
}

/// Removing one position from a duplicate-free sequence removes exactly
/// that element from its set and keeps it duplicate-free.
proof fn lemma_remove_at(v: Seq<(u64, u64)>, i: int)
    requires
        v.no_duplicates(),
        0 <= i < v.len(),
    ensures
        v.remove(i).no_duplicates(),
        !v.remove(i).contains(v[i]),
        forall|x: (u64, u64)| x != v[i] ==> (v.remove(i).contains(x) <==> v.contains(x)),
        v.remove(i).to_set() == v.to_set().remove(v[i]),
{
    let w = v.remove(i);
    assert forall|p: int, j: int|
        0 <= p < w.len() && 0 <= j < w.len() && p != j implies w[p] != w[j] by {
        let p0 = if p < i {
            p
        } else {
            p + 1
        };
        let j0 = if j < i {
            j
        } else {
            j + 1
        };
        assert(w[p] == v[p0] && w[j] == v[j0]);
    }
    assert(w.no_duplicates());
    assert forall|j: int| 0 <= j < w.len() implies w[j] != v[i] by {
        let j0 = if j < i {
            j
        } else {
            j + 1
        };
        assert(w[j] == v[j0] && j0 != i);
    }
    assert(!w.contains(v[i]));
    assert forall|x: (u64, u64)| x != v[i] implies (w.contains(x) <==> v.contains(x)) by {
        if v.contains(x) {
            let j0 = choose|j0: int| 0 <= j0 < v.len() && v[j0] == x;
            let j = if j0 < i {
                j0
            } else {
                j0 - 1
            };
            assert(w[j] == x);
        }
        if w.contains(x) {
            let j = choose|j: int| 0 <= j < w.len() && w[j] == x;
            let j0 = if j < i {
                j
            } else {
                j + 1
            };
            assert(v[j0] == x);
        }
    }
    assert(w.to_set() =~= v.to_set().remove(v[i]));
}

/// Index query determinism: two indexes holding the same set of
/// `(key, vector)` entries — in whatever order adds put them there — score
/// to the same scored-pair set against any query, so the ranked selection
/// either search returns is the same.
pub proof fn lemma_search_deterministic(a: BeatIndex, b: BeatIndex, q: Seq<i64>, k: nat)
    requires
        a.wf(),
        b.wf(),
        a.pairs().to_multiset() == b.pairs().to_multiset(),
    ensures
        a.entries.len() == b.entries.len(),
        a.scored(q).to_set() == b.scored(q).to_set(),
        BeatIndex::ranked(a.scored(q).to_set(), k) == BeatIndex::ranked(b.scored(q).to_set(), k),
{
    broadcast use vstd::seq_lib::group_to_multiset_ensures;

    assert(a.pairs().len() == a.pairs().to_multiset().len());
    assert(b.pairs().len() == b.pairs().to_multiset().len());
    assert forall|x: (u64, u64)| a.scored(q).to_set().contains(x) implies b.scored(
        q,
    ).to_set().contains(x) by {
        let i = choose|i: int| 0 <= i < a.scored(q).len() && a.scored(q)[i] == x;
        let p = a.pairs()[i];
        assert(a.pairs().contains(p));
        assert(a.pairs().to_multiset().count(p) > 0);
        assert(b.pairs().to_multiset().count(p) > 0);
        assert(b.pairs().contains(p));
        let j = choose|j: int| 0 <= j < b.pairs().len() && b.pairs()[j] == p;
        assert(b.scored(q)[j] == x);
    }
    assert forall|x: (u64, u64)| b.scored(q).to_set().contains(x) implies a.scored(
        q,
    ).to_set().contains(x) by {
        let i = choose|i: int| 0 <= i < b.scored(q).len() && b.scored(q)[i] == x;
        let p = b.pairs()[i];
        assert(b.pairs().contains(p));
        assert(b.pairs().to_multiset().count(p) > 0);
        assert(a.pairs().to_multiset().count(p) > 0);
        assert(a.pairs().contains(p));
        let j = choose|j: int| 0 <= j < a.pairs().len() && a.pairs()[j] == p;
        assert(a.scored(q)[j] == x);
    }
    assert(a.scored(q).to_set() =~= b.scored(q).to_set());
}

} // verus!
