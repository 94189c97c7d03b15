//! The coverage map of the current run, merged from what a collector reports.
use vstd::prelude::*;
use crate::string_map::StringMap;
use super::{CoverageCollector, CoverageError, COVERAGE_MAP_SIZE, zeros};

verus! {

/// Number of non-zero slots.
pub open spec fn count_nonzero(s: Seq<u8>) -> nat
    decreases s.len(),
{
    if s.len() == 0 {
        0
    } else {
        count_nonzero(s.drop_last()) + if s.last() > 0 { 1nat } else { 0nat }
    }
}

/// `cur` with every slot that `new` reports as hit overwritten by `new`'s count.
pub open spec fn merged(cur: Seq<u8>, new: Seq<u8>) -> Seq<u8> {
    Seq::new(cur.len(), |i: int| if i < new.len() && new[i] > 0 { new[i] } else { cur[i] })
}

/// `new` hits a slot that was not hit in `prev`.
pub open spec fn reaches_new(prev: Seq<u8>, new: Seq<u8>) -> bool {
    exists|i: int| 0 <= i < new.len() && i < prev.len() && new[i] > 0 && prev[i] == 0
}

pub proof fn lemma_count_nonzero_bound(s: Seq<u8>)
    ensures
        count_nonzero(s) <= s.len(),
    decreases s.len(),
{
    if s.len() > 0 {
        lemma_count_nonzero_bound(s.drop_last());
    }
}

/// Counts the non-zero slots of `s`.
pub fn count_nonzero_exec(s: &Vec<u8>) -> (n: usize)
    ensures
        n == count_nonzero(s@),
{
    let mut n: usize = 0;
    let mut i: usize = 0;
    while i < s.len()
        invariant
            i <= s.len(),
            n == count_nonzero(s@.take(i as int)),
            n <= i,
        decreases s.len() - i,
    {
        assert(s@.take(i as int + 1).drop_last() =~= s@.take(i as int));
        if s[i] > 0 {
            n += 1;
        }
        i += 1;
    }
    assert(s@.take(s.len() as int) =~= s@);
    n
}

/// An observer's state: the current map, the committed map, the new-coverage flag and the
/// number of non-zero slots.
pub struct ObserverState {
    pub map: Seq<u8>,
    pub previous: Seq<u8>,
    pub new_found: bool,
    pub total: nat,
}

/// What can happen to an observer: a collector's map merged in, a collector error, a
/// commit, or a clear of the current map.
pub enum ObserverStep {
    Merge(Seq<u8>),
    Failed,
    Commit,
    Clear,
}

/// The state a new observer starts in.
pub open spec fn initial_state() -> ObserverState {
    ObserverState {
        map: Seq::new(COVERAGE_MAP_SIZE as nat, |i: int| 0u8),
        previous: Seq::new(COVERAGE_MAP_SIZE as nat, |i: int| 0u8),
        new_found: false,
        total: 0,
    }
}

/// The state after one step.
pub open spec fn observer_step(st: ObserverState, op: ObserverStep) -> ObserverState {
    match op {
        ObserverStep::Merge(m) => ObserverState {
            map: merged(st.map, m),
            previous: st.previous,
            new_found: reaches_new(st.previous, m),
            total: count_nonzero(merged(st.map, m)),
        },
        ObserverStep::Failed => st,
        ObserverStep::Commit => ObserverState { previous: st.map, ..st },
        ObserverStep::Clear => ObserverState {
            map: Seq::new(COVERAGE_MAP_SIZE as nat, |i: int| 0u8),
            new_found: false,
            ..st
        },
    }
}

/// The state of a new observer after the steps `ops`, in order.
pub open spec fn observer_run(ops: Seq<ObserverStep>) -> ObserverState
    decreases ops.len(),
{
    if ops.len() == 0 {
        initial_state()
    } else {
        observer_step(observer_run(ops.drop_last()), ops.last())
    }
}

/// The current map as it stood at the last commit among `ops`; all zeros when there was none.
pub open spec fn last_committed_map(ops: Seq<ObserverStep>) -> Seq<u8>
    decreases ops.len(),
{
    if ops.len() == 0 {
        Seq::new(COVERAGE_MAP_SIZE as nat, |i: int| 0u8)
    } else if ops.last() is Commit {
        observer_run(ops.drop_last()).map
    } else {
        last_committed_map(ops.drop_last())
    }
}

/// The committed map is always the current map as it stood at the last commit.
pub proof fn law_baseline_is_last_commit(ops: Seq<ObserverStep>)
    ensures
        observer_run(ops).previous == last_committed_map(ops),
    decreases ops.len(),
{
    if ops.len() > 0 {
        law_baseline_is_last_commit(ops.drop_last());
    }
}

/// New coverage is measured against the committed baseline: after a merge of `m`, followed
/// only by commits and collector errors, the flag says whether `m` hits a slot that the map
/// at the last commit before the merge (all zeros if none) had not hit.
pub proof fn law_new_coverage_against_baseline(pre: Seq<ObserverStep>, m: Seq<u8>, post: Seq<ObserverStep>)
    requires
        forall|k: int| 0 <= k < post.len() ==> (#[trigger] post[k] is Commit || post[k] is Failed),
    ensures
        observer_run(pre.push(ObserverStep::Merge(m)) + post).new_found == reaches_new(last_committed_map(pre), m),
    decreases post.len(),
{
    let ops = pre.push(ObserverStep::Merge(m)) + post;
    if post.len() == 0 {
        assert(ops =~= pre.push(ObserverStep::Merge(m)));
        assert(ops.drop_last() =~= pre);
        law_baseline_is_last_commit(pre);
    } else {
        let shorter = post.drop_last();
        assert forall|k: int| 0 <= k < shorter.len() implies (#[trigger] shorter[k] is Commit || shorter[k] is Failed) by {
            assert(shorter[k] == post[k]);
        }
        law_new_coverage_against_baseline(pre, m, shorter);
        assert(ops.drop_last() =~= pre.push(ObserverStep::Merge(m)) + shorter);
        assert(ops.last() == post[post.len() - 1]);
    }
}

/// Tracks the coverage map of the current run against the map last committed.
pub struct CoverageMapObserver {
    coverage_map: Vec<u8>,
    previous_map: Vec<u8>,
    new_coverage_found: bool,
    total_edges_covered: usize,
}

impl CoverageMapObserver {
    #[verifier::type_invariant]
    spec fn inv(&self) -> bool {
        &&& self.coverage_map.len() == COVERAGE_MAP_SIZE
        &&& self.previous_map.len() == COVERAGE_MAP_SIZE
    }

    /// The coverage map of the current run.
    pub closed spec fn map_spec(&self) -> Seq<u8> {
        self.coverage_map@
    }

    /// The map as it stood at the last commit.
    pub closed spec fn previous_spec(&self) -> Seq<u8> {
        self.previous_map@
    }

    pub closed spec fn new_coverage_spec(&self) -> bool {
        self.new_coverage_found
    }

    pub closed spec fn total_edges_spec(&self) -> nat {
        self.total_edges_covered as nat
    }

    /// The observer's state as a whole.
    pub open spec fn state(&self) -> ObserverState {
        ObserverState {
            map: self.map_spec(),
            previous: self.previous_spec(),
            new_found: self.new_coverage_spec(),
            total: self.total_edges_spec(),
        }
    }

    /// An observer with empty maps.
    pub fn new() -> (r: Self)
        ensures
            r.map_spec() == Seq::new(COVERAGE_MAP_SIZE as nat, |i: int| 0u8),
            r.previous_spec() == Seq::new(COVERAGE_MAP_SIZE as nat, |i: int| 0u8),
            !r.new_coverage_spec(),
            r.total_edges_spec() == 0,
            r.state() == initial_state(),
    {
        CoverageMapObserver {
            coverage_map: zeros(COVERAGE_MAP_SIZE),
            previous_map: zeros(COVERAGE_MAP_SIZE),
            new_coverage_found: false,
            total_edges_covered: 0,
        }
    }

    /// Merges the map a collector reports; on a collector error nothing changes.
    pub fn update_from_result(&mut self, result: Result<Vec<u8>, CoverageError>)
        ensures
            match result {
                Ok(new_map) => {
                    &&& final(self).map_spec() == merged(old(self).map_spec(), new_map@)
                    &&& final(self).previous_spec() == old(self).previous_spec()
                    &&& final(self).new_coverage_spec() == reaches_new(old(self).previous_spec(), new_map@)
                    &&& final(self).total_edges_spec() == count_nonzero(final(self).map_spec())
                },
                Err(_) => *final(self) == *old(self),
            },
            final(self).state() == observer_step(
                old(self).state(),
                match result {
                    Ok(new_map) => ObserverStep::Merge(new_map@),
                    Err(_) => ObserverStep::Failed,
                },
            ),
    {
        proof {
            use_type_invariant(&*self);
        }
        match result {
            Ok(new_map) => {
                let len = if new_map.len() < COVERAGE_MAP_SIZE { new_map.len() } else { COVERAGE_MAP_SIZE };
                let mut cov = self.coverage_map.clone();
                let ghost cur = self.coverage_map@;
                let ghost prev = self.previous_map@;
                assert(cov@ =~= cur);
                let mut found = false;
                let mut i: usize = 0;
                while i < len
                    invariant
                        len <= new_map.len(),
                        len <= COVERAGE_MAP_SIZE,
                        len == new_map.len() || len == COVERAGE_MAP_SIZE,
                        i <= len,
                        cur.len() == COVERAGE_MAP_SIZE,
                        prev.len() == COVERAGE_MAP_SIZE,
                        prev == self.previous_map@,
                        cov@.len() == COVERAGE_MAP_SIZE,
                        forall|k: int| 0 <= k < i ==> cov@[k] == merged(cur, new_map@)[k],
                        forall|k: int| i <= k < COVERAGE_MAP_SIZE ==> cov@[k] == cur[k],
                        found == exists|k: int| 0 <= k < i && new_map@[k] > 0 && prev[k] == 0,
                    decreases len - i,
                {
                    if new_map[i] > 0 {
                        cov.set(i, new_map[i]);
                        if self.previous_map[i] == 0 {
                            found = true;
                        }
                    }
                    i += 1;
                }
                proof {
                    assert forall|k: int| 0 <= k < COVERAGE_MAP_SIZE implies cov@[k] == merged(cur, new_map@)[k] by {
                        if k >= len {
                            assert(k >= new_map@.len());
                        }
                    }
                    assert(cov@ =~= merged(cur, new_map@));
                    if reaches_new(prev, new_map@) {
                        let k = choose|k: int| 0 <= k < new_map@.len() && k < prev.len() && new_map@[k] > 0 && prev[k] == 0;
                        assert(k < len);
                    }
                }
                let total = count_nonzero_exec(&cov);
                self.coverage_map = cov;
                self.new_coverage_found = found;
                self.total_edges_covered = total;
            },
            Err(_) => {},
        }
    }

    /// Asks the collector for the map of the last response and merges it.
    pub fn update_from_collector<C: CoverageCollector>(&mut self, collector: &mut C, response_headers: &StringMap)
        requires
            old(collector).collect_requires(response_headers),
        ensures
            *final(self) == *old(self) || exists|m: Seq<u8>|
                {
                    &&& final(self).map_spec() == #[trigger] merged(old(self).map_spec(), m)
                    &&& final(self).previous_spec() == old(self).previous_spec()
                    &&& final(self).new_coverage_spec() == reaches_new(old(self).previous_spec(), m)
                    &&& final(self).total_edges_spec() == count_nonzero(final(self).map_spec())
                },
            final(self).state() == observer_step(old(self).state(), ObserverStep::Failed) || exists|m: Seq<u8>|
                final(self).state() == #[trigger] observer_step(old(self).state(), ObserverStep::Merge(m)),
            exists|r: Result<Vec<u8>, CoverageError>|
                #[trigger] old(collector).collected(response_headers, r) && final(self).state() == observer_step(
                    old(self).state(),
                    match r {
                        Ok(v) => ObserverStep::Merge(v@),
                        Err(_) => ObserverStep::Failed,
                    },
                ),
    {
        let result = collector.collect_coverage(response_headers);
        let ghost r = result;
        self.update_from_result(result);
        assert(old(collector).collected(response_headers, r));
    }

    /// Whether the last merge hit a slot that the committed map had not.
    pub fn has_new_coverage(&self) -> (r: bool)
        ensures
            r == self.new_coverage_spec(),
    {
        self.new_coverage_found
    }

    /// The coverage map of the current run.
    pub fn coverage_map(&self) -> (r: &[u8])
        ensures
            r@ == self.map_spec(),
            r@.len() == COVERAGE_MAP_SIZE,
    {
        proof {
            use_type_invariant(self);
        }
        self.coverage_map.as_slice()
    }

    /// Number of non-zero slots after the last merge.
    pub fn total_edges_covered(&self) -> (r: usize)
        ensures
            r == self.total_edges_spec(),
    {
        self.total_edges_covered
    }

    /// Makes the current map the one that later merges are compared against.
    pub fn commit(&mut self)
        ensures
            final(self).previous_spec() == old(self).map_spec(),
            final(self).map_spec() == old(self).map_spec(),
            final(self).new_coverage_spec() == old(self).new_coverage_spec(),
            final(self).total_edges_spec() == old(self).total_edges_spec(),
            final(self).state() == observer_step(old(self).state(), ObserverStep::Commit),
    {
        proof {
            use_type_invariant(&*self);
        }
        let copy = self.coverage_map.clone();
        assert(copy@ =~= self.coverage_map@);
        self.previous_map = copy;
    }

    /// Zeroes the current map and the new-coverage flag; the committed map and the edge count stay.
    pub fn clear_current(&mut self)
        ensures
            final(self).map_spec() == Seq::new(COVERAGE_MAP_SIZE as nat, |i: int| 0u8),
            final(self).previous_spec() == old(self).previous_spec(),
            !final(self).new_coverage_spec(),
            final(self).total_edges_spec() == old(self).total_edges_spec(),
            final(self).state() == observer_step(old(self).state(), ObserverStep::Clear),
    {
        proof {
            use_type_invariant(&*self);
        }
        self.coverage_map = zeros(COVERAGE_MAP_SIZE);
        self.new_coverage_found = false;
    }
}

/// Merging a map, committing, and merging the same map again reports no new coverage.
pub proof fn law_commit_then_same_map_is_not_new(cur: Seq<u8>, new: Seq<u8>)
    ensures
        !reaches_new(merged(cur, new), new),
{
    if reaches_new(merged(cur, new), new) {
        let k = choose|k: int| 0 <= k < new.len() && k < merged(cur, new).len() && new[k] > 0 && merged(cur, new)[k] == 0;
        assert(merged(cur, new)[k] == new[k]);
    }
}

/// Merging never clears a slot: every slot hit before stays hit.
pub proof fn law_merge_keeps_hits(cur: Seq<u8>, new: Seq<u8>, i: int)
    requires
        0 <= i < cur.len(),
        cur[i] > 0,
    ensures
        merged(cur, new)[i] > 0,
{
}

} // verus!
