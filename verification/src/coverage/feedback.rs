//! Decides whether a run reached coverage that no earlier run reached.
use vstd::prelude::*;
use super::{COVERAGE_MAP_SIZE, zeros};
use super::observer::{count_nonzero, count_nonzero_exec};

verus! {

/// The slot-wise maximum of the history and the current map (over the history's slots).
pub open spec fn pointwise_max(hist: Seq<u8>, cur: Seq<u8>) -> Seq<u8> {
    Seq::new(hist.len(), |i: int| if cur[i] > hist[i] { cur[i] } else { hist[i] })
}

/// The current map beats the history in some slot.
pub open spec fn exceeds(hist: Seq<u8>, cur: Seq<u8>) -> bool {
    exists|i: int| 0 <= i < hist.len() && cur[i] > hist[i]
}

/// Some slot of `m` holds a count above zero and above the count every map in `maps` had there.
pub open spec fn new_record(maps: Seq<Seq<u8>>, m: Seq<u8>) -> bool {
    exists|i: int|
        0 <= i < COVERAGE_MAP_SIZE && m[i] > 0 && forall|j: int| 0 <= j < maps.len() ==> m[i] > #[trigger] maps[j][i]
}

/// One for every slot that some map in `maps` hit, zero for the others.
pub open spec fn hit_marks(maps: Seq<Seq<u8>>) -> Seq<u8> {
    Seq::new(
        COVERAGE_MAP_SIZE as nat,
        |i: int| if exists|j: int| 0 <= j < maps.len() && #[trigger] maps[j][i] > 0 { 1u8 } else { 0u8 },
    )
}

/// Remembers the highest count seen in every slot.
pub struct CoverageFeedback {
    history_map: Vec<u8>,
    total_coverage: usize,
    seen: Ghost<Seq<Seq<u8>>>,
}

impl CoverageFeedback {
    #[verifier::type_invariant]
    spec fn inv(&self) -> bool {
        &&& self.history_map.len() == COVERAGE_MAP_SIZE
        &&& full_maps(self.seen@)
        &&& self.history_map@ == history_of(self.seen@)
        &&& self.total_coverage == count_nonzero(self.history_map@)
    }

    /// The highest count seen in every slot.
    pub closed spec fn history_spec(&self) -> Seq<u8> {
        self.history_map@
    }

    pub closed spec fn total_spec(&self) -> nat {
        self.total_coverage as nat
    }

    /// The maps folded in so far, in order.
    pub closed spec fn seen_spec(&self) -> Seq<Seq<u8>> {
        self.seen@
    }

    /// A feedback that has seen nothing.
    pub fn new() -> (r: Self)
        ensures
            r.history_spec() == Seq::new(COVERAGE_MAP_SIZE as nat, |i: int| 0u8),
            r.history_spec() == history_of(Seq::empty()),
            r.seen_spec() == Seq::<Seq<u8>>::empty(),
            r.total_spec() == 0,
    {
        let h = zeros(COVERAGE_MAP_SIZE);
        proof {
            lemma_zeros_count(COVERAGE_MAP_SIZE as nat);
        }
        CoverageFeedback { history_map: h, total_coverage: 0, seen: Ghost(Seq::empty()) }
    }

    /// Number of slots ever hit: the slots that some map folded in so far hit.
    pub fn total_coverage(&self) -> (r: usize)
        ensures
            r == self.total_spec(),
            r == count_nonzero(hit_marks(self.seen_spec())),
    {
        proof {
            use_type_invariant(self);
            lemma_total_is_slots_hit(self.seen@);
        }
        self.total_coverage
    }

    /// Folds the current map into the history; true when some slot beat its record.
    pub fn is_interesting_map(&mut self, current_map: &[u8]) -> (found: bool)
        requires
            current_map@.len() >= COVERAGE_MAP_SIZE,
        ensures
            final(self).seen_spec() == old(self).seen_spec().push(current_map@),
            final(self).history_spec() == pointwise_max(old(self).history_spec(), current_map@),
            found == exceeds(old(self).history_spec(), current_map@),
            found == new_record(old(self).seen_spec(), current_map@),
            final(self).total_spec() == count_nonzero(final(self).history_spec()),
            final(self).total_spec() == count_nonzero(hit_marks(final(self).seen_spec())),
            final(self).total_spec() >= old(self).total_spec(),
    {
        proof {
            use_type_invariant(&*self);
        }
        let ghost s0 = self.seen@;
        let ghost s1 = s0.push(current_map@);
        let mut hist = self.history_map.clone();
        let ghost h0 = self.history_map@;
        assert(hist@ =~= h0);
        let mut found = false;
        let mut i: usize = 0;
        while i < COVERAGE_MAP_SIZE
            invariant
                i <= COVERAGE_MAP_SIZE,
                h0.len() == COVERAGE_MAP_SIZE,
                current_map@.len() >= COVERAGE_MAP_SIZE,
                hist@.len() == COVERAGE_MAP_SIZE,
                forall|k: int| 0 <= k < i ==> hist@[k] == pointwise_max(h0, current_map@)[k],
                forall|k: int| i <= k < COVERAGE_MAP_SIZE ==> hist@[k] == h0[k],
                found == exists|k: int| 0 <= k < i && current_map@[k] > h0[k],
            decreases COVERAGE_MAP_SIZE - i,
        {
            let c = current_map[i];
            assert(hist@[i as int] == h0[i as int]);
            if c > 0 && hist[i] == 0 {
                found = true;
                hist.set(i, c);
            } else if c > hist[i] {
                found = true;
                hist.set(i, c);
            }
            assert(hist@[i as int] == pointwise_max(h0, current_map@)[i as int]);
            assert(c > h0[i as int] ==> found);
            i += 1;
        }
        assert(hist@ =~= pointwise_max(h0, current_map@));
        proof {
            assert(s1.drop_last() =~= s0);
            assert(full_maps(s1)) by {
                assert forall|j: int| 0 <= j < s1.len() implies #[trigger] s1[j].len() >= COVERAGE_MAP_SIZE by {
                    if j < s0.len() {
                        assert(s1[j] == s0[j]);
                    }
                }
            }
            law_interesting_iff_new_record(s0, current_map@);
            law_total_coverage_never_decreases(h0, current_map@);
            lemma_total_is_slots_hit(s1);
        }
        if found {
            let total = count_nonzero_exec(&hist);
            *self = CoverageFeedback { history_map: hist, total_coverage: total, seen: Ghost(s1) };
        } else {
            assert(hist@ =~= h0);
            let total = self.total_coverage;
            *self = CoverageFeedback { history_map: hist, total_coverage: total, seen: Ghost(s1) };
        }
        found
    }
}

/// The count of slots in a history is the count of slots that some map hit.
proof fn lemma_total_is_slots_hit(maps: Seq<Seq<u8>>)
    requires
        full_maps(maps),
    ensures
        count_nonzero(history_of(maps)) == count_nonzero(hit_marks(maps)),
{
    let h = history_of(maps);
    let m = hit_marks(maps);
    law_history_is_highest_count(maps, 0);
    assert forall|i: int| 0 <= i < h.len() implies (h[i] > 0 <==> m[i] > 0) by {
        law_total_counts_slots_ever_hit(maps, i);
    }
    lemma_count_monotone(h, m);
    lemma_count_monotone(m, h);
}

proof fn lemma_zeros_count(n: nat)
    ensures
        count_nonzero(Seq::new(n, |i: int| 0u8)) == 0,
    decreases n,
{
    if n > 0 {
        assert(Seq::new(n, |i: int| 0u8).drop_last() =~= Seq::new((n - 1) as nat, |i: int| 0u8));
        lemma_zeros_count((n - 1) as nat);
    }
}

/// Folding the same map in twice: the second time nothing beats its record.
pub proof fn law_feedback_idempotent(hist: Seq<u8>, cur: Seq<u8>)
    requires
        cur.len() >= hist.len(),
    ensures
        !exceeds(pointwise_max(hist, cur), cur),
{
}

/// The history never loses a count: every slot keeps at least its old value.
pub proof fn law_history_monotone(hist: Seq<u8>, cur: Seq<u8>, i: int)
    requires
        0 <= i < hist.len(),
    ensures
        pointwise_max(hist, cur)[i] >= hist[i],
        pointwise_max(hist, cur)[i] >= cur[i],
{
}

/// The history a new feedback holds after it has folded in `maps`, one call per map, in order.
pub open spec fn history_of(maps: Seq<Seq<u8>>) -> Seq<u8>
    decreases maps.len(),
{
    if maps.len() == 0 {
        Seq::new(COVERAGE_MAP_SIZE as nat, |i: int| 0u8)
    } else {
        pointwise_max(history_of(maps.drop_last()), maps.last())
    }
}

/// All maps cover every slot of the coverage map.
pub open spec fn full_maps(maps: Seq<Seq<u8>>) -> bool {
    forall|j: int| 0 <= j < maps.len() ==> #[trigger] maps[j].len() >= COVERAGE_MAP_SIZE
}

/// After any calls, every slot of the history holds the highest count any map had there,
/// or zero when no map hit it.
pub proof fn law_history_is_highest_count(maps: Seq<Seq<u8>>, i: int)
    requires
        full_maps(maps),
        0 <= i < COVERAGE_MAP_SIZE,
    ensures
        history_of(maps).len() == COVERAGE_MAP_SIZE,
        forall|j: int| 0 <= j < maps.len() ==> #[trigger] maps[j][i] <= history_of(maps)[i],
        history_of(maps)[i] == 0 || exists|j: int| 0 <= j < maps.len() && #[trigger] maps[j][i] == history_of(maps)[i],
    decreases maps.len(),
{
    if maps.len() > 0 {
        let prev = maps.drop_last();
        assert forall|j: int| 0 <= j < prev.len() implies #[trigger] prev[j].len() >= COVERAGE_MAP_SIZE by {
            assert(prev[j] == maps[j]);
        }
        law_history_is_highest_count(prev, i);
        let h = history_of(prev);
        assert forall|j: int| 0 <= j < maps.len() implies #[trigger] maps[j][i] <= history_of(maps)[i] by {
            if j < prev.len() {
                assert(prev[j] == maps[j]);
            }
        }
        if history_of(maps)[i] != 0 {
            if history_of(maps)[i] == maps.last()[i] {
                assert(maps[maps.len() - 1][i] == history_of(maps)[i]);
            } else {
                let j = choose|j: int| 0 <= j < prev.len() && #[trigger] prev[j][i] == h[i];
                assert(maps[j] == prev[j]);
                assert(maps[j][i] == history_of(maps)[i]);
            }
        }
    }
}

/// After any calls, a map is interesting exactly when in some slot it beats the count of
/// every map folded in before it, and of zero.
pub proof fn law_interesting_iff_new_record(maps: Seq<Seq<u8>>, m: Seq<u8>)
    requires
        full_maps(maps),
        m.len() >= COVERAGE_MAP_SIZE,
    ensures
        exceeds(history_of(maps), m) <==> exists|i: int|
            0 <= i < COVERAGE_MAP_SIZE && m[i] > 0 && forall|j: int| 0 <= j < maps.len() ==> m[i] > #[trigger] maps[j][i],
{
    let h = history_of(maps);
    law_history_is_highest_count(maps, 0);
    if exceeds(h, m) {
        let i = choose|i: int| 0 <= i < h.len() && m[i] > h[i];
        law_history_is_highest_count(maps, i);
        assert forall|j: int| 0 <= j < maps.len() implies m[i] > #[trigger] maps[j][i] by {}
    }
    if exists|i: int| 0 <= i < COVERAGE_MAP_SIZE && m[i] > 0 && forall|j: int| 0 <= j < maps.len() ==> m[i] > #[trigger] maps[j][i] {
        let i = choose|i: int| 0 <= i < COVERAGE_MAP_SIZE && m[i] > 0 && forall|j: int| 0 <= j < maps.len() ==> m[i] > #[trigger] maps[j][i];
        law_history_is_highest_count(maps, i);
        if h[i] != 0 {
            let j = choose|j: int| 0 <= j < maps.len() && #[trigger] maps[j][i] == h[i];
            assert(m[i] > maps[j][i]);
        }
        assert(m[i] > h[i]);
    }
}

/// A map folded in a second time right after the first is no longer interesting.
pub proof fn law_same_map_twice_is_not_interesting(maps: Seq<Seq<u8>>, m: Seq<u8>)
    requires
        m.len() >= COVERAGE_MAP_SIZE,
    ensures
        !exceeds(history_of(maps.push(m)), m),
{
    assert(maps.push(m).drop_last() =~= maps);
}

/// Count of non-zero slots never drops when each slot's count stays or rises from zero.
proof fn lemma_count_monotone(a: Seq<u8>, b: Seq<u8>)
    requires
        a.len() == b.len(),
        forall|i: int| 0 <= i < a.len() && a[i] > 0 ==> b[i] > 0,
    ensures
        count_nonzero(a) <= count_nonzero(b),
    decreases a.len(),
{
    if a.len() > 0 {
        lemma_count_monotone(a.drop_last(), b.drop_last());
    }
}

/// The total coverage never decreases: folding in a map leaves at least as many slots hit.
pub proof fn law_total_coverage_never_decreases(hist: Seq<u8>, cur: Seq<u8>)
    requires
        cur.len() >= hist.len(),
    ensures
        count_nonzero(pointwise_max(hist, cur)) >= count_nonzero(hist),
{
    lemma_count_monotone(hist, pointwise_max(hist, cur));
}

/// After any calls, a slot counts toward the total exactly when some map hit it.
pub proof fn law_total_counts_slots_ever_hit(maps: Seq<Seq<u8>>, i: int)
    requires
        full_maps(maps),
        0 <= i < COVERAGE_MAP_SIZE,
    ensures
        history_of(maps)[i] > 0 <==> exists|j: int| 0 <= j < maps.len() && #[trigger] maps[j][i] > 0,
{
    law_history_is_highest_count(maps, i);
    if exists|j: int| 0 <= j < maps.len() && #[trigger] maps[j][i] > 0 {
        let j = choose|j: int| 0 <= j < maps.len() && #[trigger] maps[j][i] > 0;
        assert(maps[j][i] <= history_of(maps)[i]);
    }
}

} // verus!
