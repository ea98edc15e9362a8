//! Spatial index: a rebuildable, queryable snapshot of agent positions.
//! It owns nothing beyond (identity, position) pairs; it is rebuilt from the
//! latest snapshot each tick and queried read-only during evaluation.

use vstd::prelude::*;
use vstd::multiset::Multiset;
use crate::agent::{all_wf, Agent};
use crate::vec2::{dist_sq, Vec2I, V2};
use crate::MAX_COORD;

verus! {

/// One indexed point: an agent identity and the position it had when the
/// index was built.
#[derive(Clone, Copy, PartialEq, Eq, Structural, Debug)]
pub struct IndexEntry {
    pub id: usize,
    pub pos: Vec2I,
}

/// One radius-query result: the identity, the indexed position and the
/// squared distance from the query center (squared, so that no square root
/// is needed in the hot path).
#[derive(Clone, Copy, PartialEq, Eq, Structural, Debug)]
pub struct QueryHit {
    pub id: usize,
    pub pos: Vec2I,
    pub d2: i64,
}

/// Entry `e` lies within Euclidean distance `r` of `center` (compared on
/// squares).
pub open spec fn within(e: IndexEntry, center: V2, r: int) -> bool {
    e.pos@.minus(center).norm_sq() <= r * r
}

/// The subsequence of `s` within distance `r` of `center`, in index order.
pub open spec fn radius_filter(s: Seq<IndexEntry>, center: V2, r: int) -> Seq<IndexEntry>
    decreases s.len(),
{
    if s.len() == 0 {
        Seq::empty()
    } else {
        let p = radius_filter(s.drop_last(), center, r);
        if within(s.last(), center, r) {
            p.push(s.last())
        } else {
            p
        }
    }
}

/// Exactness of radius queries: an entry is in the filtered sequence exactly
/// when it is indexed and within distance `r` of the center.
pub proof fn lemma_radius_filter_exact(s: Seq<IndexEntry>, center: V2, r: int, e: IndexEntry)
    ensures
        radius_filter(s, center, r).contains(e) <==> s.contains(e) && within(e, center, r),
    decreases s.len(),
{
    if s.len() == 0 {
    } else {
        lemma_radius_filter_exact(s.drop_last(), center, r, e);
        assert(s.contains(e) <==> s.drop_last().contains(e) || s.last() == e) by {
            if s.contains(e) {
                let k = choose|k: int| 0 <= k < s.len() && s[k] == e;
                if k < s.len() - 1 {
                    assert(s.drop_last()[k] == e);
                }
            }
            if s.drop_last().contains(e) {
                let k = choose|k: int| 0 <= k < s.drop_last().len() && s.drop_last()[k] == e;
                assert(s[k] == e);
            }
        }
        let p = radius_filter(s.drop_last(), center, r);
        if within(s.last(), center, r) {
            assert(p.push(s.last()).contains(e) <==> p.contains(e) || s.last() == e) by {
                if p.push(s.last()).contains(e) {
                    let k = choose|k: int| 0 <= k < p.push(s.last()).len() && p.push(s.last())[k] == e;
                    if k < p.len() {
                        assert(p[k] == e);
                    }
                }
                if p.contains(e) {
                    let k = choose|k: int| 0 <= k < p.len() && p[k] == e;
                    assert(p.push(s.last())[k] == e);
                }
                assert(p.push(s.last())[p.len() as int] == s.last());
            }
        }
    }
}

/// A radius query never reports more points than are indexed.
pub proof fn lemma_radius_filter_len(s: Seq<IndexEntry>, center: V2, r: int)
    ensures
        radius_filter(s, center, r).len() <= s.len(),
    decreases s.len(),
{
    if s.len() != 0 {
        lemma_radius_filter_len(s.drop_last(), center, r);
    }
}

/// The index entries a fresh snapshot of the population produces: entry `j`
/// carries identity `j` and the agent's current position.
pub open spec fn snapshot_of(agents: Seq<Agent>) -> Seq<IndexEntry> {
    Seq::new(agents.len(), |k: int| IndexEntry { id: k as usize, pos: agents[k].pos })
}

/// The hit records a query over `s` from `center` reports.
pub open spec fn hits_of(s: Seq<IndexEntry>, center: V2) -> Seq<QueryHit> {
    Seq::new(
        s.len(),
        |k: int| QueryHit {
            id: s[k].id,
            pos: s[k].pos,
            d2: s[k].pos@.minus(center).norm_sq() as i64,
        },
    )
}

/// An ephemeral, rebuildable map from the current position set to locality
/// queries.  Purely derived data: rebuilt (at least) once per tick from the
/// latest snapshot, holding no state of its own beyond the indexed pairs.
pub struct SpatialIndex {
    entries: Vec<IndexEntry>,
}

impl View for SpatialIndex {
    type V = Seq<IndexEntry>;

    closed spec fn view(&self) -> Seq<IndexEntry> {
        self.entries@
    }
}

impl SpatialIndex {
    /// Every indexed position stays inside the coordinate bound.
    pub open spec fn wf(self) -> bool {
        forall|k: int| 0 <= k < self@.len() ==> (#[trigger] self@[k]).pos@.abs_le(MAX_COORD as int)
    }

    /// Build an index over arbitrary (identity, position) pairs.  The caller
    /// may hand identities that later stop resolving to live agents; queries
    /// simply report them and readers skip them.
    pub fn build(entries: Vec<IndexEntry>) -> (r: SpatialIndex)
        requires
            forall|k: int| 0 <= k < entries@.len()
                ==> (#[trigger] entries@[k]).pos@.abs_le(MAX_COORD as int),
        ensures
            r@ == entries@,
            r.wf(),
    {
        SpatialIndex { entries }
    }

    /// Build a fresh index over the current population: entry `j` carries
    /// identity `j`.
    pub fn of_snapshot(agents: &Vec<Agent>) -> (r: SpatialIndex)
        requires
            all_wf(agents@),
        ensures
            r@ == snapshot_of(agents@),
            r.wf(),
    {
        let mut entries: Vec<IndexEntry> = Vec::new();
        let mut j: usize = 0;
        while j < agents.len()
            invariant
                all_wf(agents@),
                j <= agents@.len(),
                entries@ =~= snapshot_of(agents@).subrange(0, j as int),
            decreases agents@.len() - j,
        {
            entries.push(IndexEntry { id: j, pos: agents[j].pos });
            proof {
                assert(entries@ =~= snapshot_of(agents@).subrange(0, j as int + 1));
            }
            j = j + 1;
        }
        proof {
            assert(snapshot_of(agents@).subrange(0, agents@.len() as int) =~= snapshot_of(agents@));
        }
        SpatialIndex { entries }
    }

    /// How many points are indexed.
    pub fn len(&self) -> (r: usize)
        ensures
            r == self@.len(),
    {
        self.entries.len()
    }

    /// Report exactly the indexed points within Euclidean distance `radius`
    /// of `center`, in index order, each with its squared distance.
    pub fn query_radius(&self, center: Vec2I, radius: i64) -> (hits: Vec<QueryHit>)
        requires
            self.wf(),
            center@.abs_le(MAX_COORD as int),
            0 <= radius <= MAX_COORD,
        ensures
            hits@ == hits_of(radius_filter(self@, center@, radius as int), center@),
    {
        proof {
            crate::math::lemma_abs_mul_bound(radius as int, radius as int, MAX_COORD as int, MAX_COORD as int);
        }
        let r2: i64 = radius * radius;
        let mut hits: Vec<QueryHit> = Vec::new();
        let mut j: usize = 0;
        while j < self.entries.len()
            invariant
                self.wf(),
                center@.abs_le(MAX_COORD as int),
                0 <= radius <= MAX_COORD,
                r2 == radius * radius,
                j <= self@.len(),
                hits@ =~= hits_of(radius_filter(self@.subrange(0, j as int), center@, radius as int), center@),
            decreases self@.len() - j,
        {
            let ghost prefix = self@.subrange(0, j as int);
            let ghost prefix1 = self@.subrange(0, j as int + 1);
            proof {
                assert(prefix1.drop_last() =~= prefix);
                assert(prefix1.last() == self@[j as int]);
            }
            let e: IndexEntry = self.entries[j];
            let d2: i64 = dist_sq(center, e.pos);
            if d2 <= r2 {
                hits.push(QueryHit { id: e.id, pos: e.pos, d2 });
                proof {
                    assert(hits@ =~= hits_of(radius_filter(prefix1, center@, radius as int), center@));
                }
            } else {
                proof {
                    assert(hits@ =~= hits_of(radius_filter(prefix1, center@, radius as int), center@));
                }
            }
            j = j + 1;
        }
        proof {
            assert(self@.subrange(0, self@.len() as int) =~= self@);
        }
        hits
    }
}

// --- k-nearest queries -----------------------------------------------------

/// Squared distance of an indexed entry from a query center.
pub open spec fn dist2(e: IndexEntry, c: V2) -> int {
    e.pos@.minus(c).norm_sq()
}

/// Query order: nearer entries first, ties broken by identity, so that a
/// k-nearest query is deterministic even among equidistant points.
pub open spec fn key_le(a: IndexEntry, b: IndexEntry, c: V2) -> bool {
    dist2(a, c) < dist2(b, c) || (dist2(a, c) == dist2(b, c) && a.id <= b.id)
}

/// Insert an entry into a sequence sorted by query order.
pub open spec fn insert_by_key(s: Seq<IndexEntry>, e: IndexEntry, c: V2) -> Seq<IndexEntry>
    decreases s.len(),
{
    if s.len() == 0 {
        seq![e]
    } else if key_le(s[0], e, c) {
        seq![s[0]] + insert_by_key(s.drop_first(), e, c)
    } else {
        seq![e] + s
    }
}

/// The indexed entries arranged in query order (insertion sort).
pub open spec fn sort_by_key(s: Seq<IndexEntry>, c: V2) -> Seq<IndexEntry>
    decreases s.len(),
{
    if s.len() == 0 {
        Seq::empty()
    } else {
        insert_by_key(sort_by_key(s.drop_last(), c), s.last(), c)
    }
}

/// Nondecreasing in query order.
pub open spec fn sorted_by_key(s: Seq<IndexEntry>, c: V2) -> bool {
    forall|a: int, b: int| 0 <= a < b < s.len() ==> key_le(#[trigger] s[a], #[trigger] s[b], c)
}

/// What a k-nearest query owes: the first `k` entries of the query-ordered
/// arrangement (all of them when fewer than `k` points are indexed).
pub open spec fn k_nearest_spec(s: Seq<IndexEntry>, c: V2, k: int) -> Seq<IndexEntry> {
    let sorted = sort_by_key(s, c);
    if k < sorted.len() {
        sorted.take(k)
    } else {
        sorted
    }
}

proof fn lemma_insert_by_key_len(s: Seq<IndexEntry>, e: IndexEntry, c: V2)
    ensures
        insert_by_key(s, e, c).len() == s.len() + 1,
    decreases s.len(),
{
    if s.len() != 0 && key_le(s[0], e, c) {
        lemma_insert_by_key_len(s.drop_first(), e, c);
    }
}

/// Every element of the insertion result is the new entry or one of the old.
proof fn lemma_insert_by_key_elems(s: Seq<IndexEntry>, e: IndexEntry, c: V2, i: int)
    requires
        0 <= i < insert_by_key(s, e, c).len(),
    ensures
        insert_by_key(s, e, c)[i] == e || s.contains(insert_by_key(s, e, c)[i]),
    decreases s.len(),
{
    if s.len() == 0 {
    } else if key_le(s[0], e, c) {
        let r = insert_by_key(s, e, c);
        if i == 0 {
            assert(r[0] == s[0]);
        } else {
            lemma_insert_by_key_elems(s.drop_first(), e, c, i - 1);
            assert(r[i] == insert_by_key(s.drop_first(), e, c)[i - 1]);
            if s.drop_first().contains(r[i]) {
                let t = choose|t: int|
                    0 <= t < s.drop_first().len() && s.drop_first()[t] == r[i];
                assert(s[t + 1] == r[i]);
            }
        }
    } else {
        if i > 0 {
            assert(insert_by_key(s, e, c)[i] == s[i - 1]);
        }
    }
}

proof fn lemma_insert_by_key_sorted(s: Seq<IndexEntry>, e: IndexEntry, c: V2)
    requires
        sorted_by_key(s, c),
    ensures
        sorted_by_key(insert_by_key(s, e, c), c),
    decreases s.len(),
{
    let r = insert_by_key(s, e, c);
    if s.len() == 0 {
    } else if key_le(s[0], e, c) {
        let df = s.drop_first();
        assert forall|a: int, b: int| 0 <= a < b < df.len() implies
            key_le(#[trigger] df[a], #[trigger] df[b], c) by {
            assert(df[a] == s[a + 1] && df[b] == s[b + 1]);
        }
        lemma_insert_by_key_sorted(df, e, c);
        lemma_insert_by_key_len(df, e, c);
        let ri = insert_by_key(df, e, c);
        assert forall|a: int, b: int| 0 <= a < b < r.len() implies
            key_le(#[trigger] r[a], #[trigger] r[b], c) by {
            if a == 0 {
                assert(r[b] == ri[b - 1]);
                lemma_insert_by_key_elems(df, e, c, b - 1);
                if ri[b - 1] == e {
                } else {
                    let t = choose|t: int| 0 <= t < df.len() && df[t] == ri[b - 1];
                    assert(s[t + 1] == ri[b - 1]);
                    assert(key_le(s[0], s[t + 1], c));
                }
            } else {
                assert(r[a] == ri[a - 1] && r[b] == ri[b - 1]);
            }
        }
    } else {
        assert forall|a: int, b: int| 0 <= a < b < r.len() implies
            key_le(#[trigger] r[a], #[trigger] r[b], c) by {
            if a == 0 {
                assert(r[b] == s[b - 1]);
                if b > 1 {
                    assert(key_le(s[0], s[b - 1], c));
                }
            } else {
                assert(r[a] == s[a - 1] && r[b] == s[b - 1]);
            }
        }
    }
}

proof fn lemma_insert_by_key_multiset(s: Seq<IndexEntry>, e: IndexEntry, c: V2)
    ensures
        insert_by_key(s, e, c).to_multiset() == s.to_multiset().insert(e),
    decreases s.len(),
{
    broadcast use vstd::seq_lib::group_to_multiset_ensures;
    broadcast use vstd::multiset::group_multiset_axioms;

    if s.len() == 0 {
        assert(seq![e] =~= Seq::<IndexEntry>::empty().push(e));
        assert(Seq::<IndexEntry>::empty().to_multiset() =~= Multiset::<IndexEntry>::empty());
        assert(insert_by_key(s, e, c).to_multiset() =~= s.to_multiset().insert(e));
    } else if key_le(s[0], e, c) {
        let df = s.drop_first();
        lemma_insert_by_key_multiset(df, e, c);
        let ri = insert_by_key(df, e, c);
        vstd::seq_lib::lemma_multiset_commutative(seq![s[0]], ri);
        vstd::seq_lib::lemma_multiset_commutative(seq![s[0]], df);
        assert(s =~= seq![s[0]] + df);
        assert(insert_by_key(s, e, c).to_multiset() =~= s.to_multiset().insert(e));
    } else {
        vstd::seq_lib::lemma_multiset_commutative(seq![e], s);
        assert(seq![e] =~= Seq::<IndexEntry>::empty().push(e));
        assert(Seq::<IndexEntry>::empty().to_multiset() =~= Multiset::<IndexEntry>::empty());
        assert(insert_by_key(s, e, c).to_multiset() =~= s.to_multiset().insert(e));
    }
}

/// Arranging in query order keeps the length.
pub proof fn lemma_sort_by_key_len(s: Seq<IndexEntry>, c: V2)
    ensures
        sort_by_key(s, c).len() == s.len(),
    decreases s.len(),
{
    if s.len() != 0 {
        lemma_sort_by_key_len(s.drop_last(), c);
        lemma_insert_by_key_len(sort_by_key(s.drop_last(), c), s.last(), c);
    }
}

/// The query-ordered arrangement is sorted.
pub proof fn lemma_sort_by_key_sorted(s: Seq<IndexEntry>, c: V2)
    ensures
        sorted_by_key(sort_by_key(s, c), c),
    decreases s.len(),
{
    if s.len() != 0 {
        lemma_sort_by_key_sorted(s.drop_last(), c);
        lemma_insert_by_key_sorted(sort_by_key(s.drop_last(), c), s.last(), c);
    }
}

/// The query-ordered arrangement is a permutation of the indexed entries:
/// together with `lemma_sort_by_key_sorted` this pins the k-nearest result
/// to exactly the `k` nearest indexed points in deterministic order.
pub proof fn lemma_sort_by_key_multiset(s: Seq<IndexEntry>, c: V2)
    ensures
        sort_by_key(s, c).to_multiset() == s.to_multiset(),
    decreases s.len(),
{
    broadcast use vstd::seq_lib::group_to_multiset_ensures;

    if s.len() != 0 {
        lemma_sort_by_key_multiset(s.drop_last(), c);
        lemma_insert_by_key_multiset(sort_by_key(s.drop_last(), c), s.last(), c);
        assert(s =~= s.drop_last().push(s.last()));
    }
}

/// Positional characterization of `insert_by_key`: inserting at the first
/// position whose entry does not precede `e` is the sorted insertion.
proof fn lemma_insert_by_key_at(s: Seq<IndexEntry>, e: IndexEntry, c: V2, p: int)
    requires
        0 <= p <= s.len(),
        forall|i: int| 0 <= i < p ==> key_le(#[trigger] s[i], e, c),
        p < s.len() ==> !key_le(s[p], e, c),
    ensures
        insert_by_key(s, e, c) == s.insert(p, e),
    decreases s.len(),
{
    if s.len() == 0 {
        assert(insert_by_key(s, e, c) =~= s.insert(p, e));
    } else if p == 0 {
        assert(insert_by_key(s, e, c) =~= s.insert(p, e));
    } else {
        assert(key_le(s[0], e, c));
        let df = s.drop_first();
        assert forall|i: int| 0 <= i < p - 1 implies key_le(#[trigger] df[i], e, c) by {
            assert(df[i] == s[i + 1]);
        }
        assert(p - 1 < df.len() ==> df[p - 1] == s[p]);
        lemma_insert_by_key_at(df, e, c, p - 1);
        assert(insert_by_key(s, e, c) =~= s.insert(p, e));
    }
}

impl SpatialIndex {
    /// Report the `k` indexed points nearest to `center` (all of them when
    /// fewer are indexed), nearest first, ties broken by identity, each with
    /// its squared distance.  Useful to cap per-agent work when density is
    /// high: the caller bounds the neighbor count instead of the radius.
    pub fn query_k_nearest(&self, center: Vec2I, k: usize) -> (hits: Vec<QueryHit>)
        requires
            self.wf(),
            center@.abs_le(MAX_COORD as int),
        ensures
            hits@ == hits_of(k_nearest_spec(self@, center@, k as int), center@),
    {
        let mut sorted_v: Vec<IndexEntry> = Vec::new();
        let mut j: usize = 0;
        while j < self.entries.len()
            invariant
                self.wf(),
                center@.abs_le(MAX_COORD as int),
                j <= self@.len(),
                sorted_v@ == sort_by_key(self@.subrange(0, j as int), center@),
                sorted_v@.len() == j,
                forall|t: int| 0 <= t < sorted_v@.len()
                    ==> (#[trigger] sorted_v@[t]).pos@.abs_le(MAX_COORD as int),
            decreases self@.len() - j,
        {
            let e: IndexEntry = self.entries[j];
            let ghost prev = sorted_v@;
            let mut p: usize = 0;
            while p < sorted_v.len() && key_le_check(sorted_v[p], e, center)
                invariant
                    center@.abs_le(MAX_COORD as int),
                    sorted_v@ == prev,
                    p <= sorted_v@.len(),
                    forall|t: int| 0 <= t < sorted_v@.len()
                        ==> (#[trigger] sorted_v@[t]).pos@.abs_le(MAX_COORD as int),
                    e.pos@.abs_le(MAX_COORD as int),
                    forall|i: int| 0 <= i < p ==> key_le(#[trigger] prev[i], e, center@),
                decreases sorted_v@.len() - p,
            {
                p = p + 1;
            }
            sorted_v.insert(p, e);
            proof {
                lemma_insert_by_key_at(prev, e, center@, p as int);
                lemma_insert_by_key_len(prev, e, center@);
                assert(self@.subrange(0, j as int + 1).drop_last()
                    =~= self@.subrange(0, j as int));
                assert(self@.subrange(0, j as int + 1).last() == self@[j as int]);
                assert forall|t: int| 0 <= t < sorted_v@.len() implies
                    (#[trigger] sorted_v@[t]).pos@.abs_le(MAX_COORD as int) by {
                    if t < p {
                        assert(sorted_v@[t] == prev[t]);
                    } else if t == p {
                        assert(sorted_v@[t] == e);
                    } else {
                        assert(sorted_v@[t] == prev[t - 1]);
                    }
                }
            }
            j = j + 1;
        }
        proof {
            assert(self@.subrange(0, self@.len() as int) =~= self@);
        }

        let limit: usize = if k < sorted_v.len() {
            k
        } else {
            sorted_v.len()
        };
        let mut hits: Vec<QueryHit> = Vec::new();
        let mut m: usize = 0;
        while m < limit
            invariant
                center@.abs_le(MAX_COORD as int),
                limit <= sorted_v@.len(),
                m <= limit,
                forall|t: int| 0 <= t < sorted_v@.len()
                    ==> (#[trigger] sorted_v@[t]).pos@.abs_le(MAX_COORD as int),
                hits@ =~= hits_of(sorted_v@.take(limit as int), center@).take(m as int),
            decreases limit - m,
        {
            let e: IndexEntry = sorted_v[m];
            let d2: i64 = dist_sq(center, e.pos);
            hits.push(QueryHit { id: e.id, pos: e.pos, d2 });
            proof {
                assert(hits@ =~= hits_of(sorted_v@.take(limit as int), center@).take(
                    m as int + 1,
                ));
            }
            m = m + 1;
        }
        proof {
            assert(hits@ =~= hits_of(k_nearest_spec(self@, center@, k as int), center@));
        }
        hits
    }
}

/// Exec mirror of the query order `key_le`.
fn key_le_check(a: IndexEntry, b: IndexEntry, center: Vec2I) -> (r: bool)
    requires
        a.pos@.abs_le(MAX_COORD as int),
        b.pos@.abs_le(MAX_COORD as int),
        center@.abs_le(MAX_COORD as int),
    ensures
        r == key_le(a, b, center@),
{
    let da: i64 = dist_sq(center, a.pos);
    let db: i64 = dist_sq(center, b.pos);
    da < db || (da == db && a.id <= b.id)
}

} // verus!
