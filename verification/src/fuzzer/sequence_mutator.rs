//! Structural mutations of request sequences.
use vstd::prelude::*;
use libafl_bolts::rands::RomuDuoJrRand;
use super::rng::rand_below;
use super::input::{FuzzHttpRequest, RequestModel};
use super::sequence_input::{FuzzRequestSequence, reqs_view};
use super::state_manager::{StateExtraction, ExtractionModel, exts_view};
use crate::text::{string_of, u64_decimal, decimal};

verus! {

/// Longest sequence the mutations grow to.
pub const MAX_SEQUENCE_LEN: usize = 20;

/// Whether a mutation changed its input.
#[derive(Debug, Clone, Copy, PartialEq, Eq, Structural)]
pub enum MutationOutcome {
    Mutated,
    Skipped,
}

/// Extraction `e` only names requests of a sequence of `n` requests.
pub open spec fn ext_in_range(e: ExtractionModel, n: nat) -> bool {
    e.source < n && e.target_idx < n
}

pub open spec fn exts_in_range(exts: Seq<ExtractionModel>, n: nat) -> bool {
    forall|i: int| 0 <= i < exts.len() ==> ext_in_range(#[trigger] exts[i], n)
}

/// No extraction names the largest index, so indices can move up by one.
pub open spec fn exts_below_max(exts: Seq<ExtractionModel>) -> bool {
    forall|i: int| 0 <= i < exts.len() ==> (#[trigger] exts[i]).source < usize::MAX && exts[i].target_idx < usize::MAX
}

/// An index after removing request `idx`.
pub open spec fn shift_down(k: nat, idx: nat) -> nat {
    if k > idx {
        (k - 1) as nat
    } else {
        k
    }
}

/// An index after inserting a request at `pos`.
pub open spec fn shift_up(k: nat, pos: nat) -> nat {
    if k >= pos {
        k + 1
    } else {
        k
    }
}

/// The extractions after removing request `idx`: those that read or write it are dropped,
/// and indices past it move down by one.
pub open spec fn exts_after_remove(exts: Seq<ExtractionModel>, idx: nat) -> Seq<ExtractionModel>
    decreases exts.len(),
{
    if exts.len() == 0 {
        Seq::empty()
    } else {
        let rest = exts_after_remove(exts.drop_last(), idx);
        let e = exts.last();
        if e.source != idx && e.target_idx != idx {
            rest.push(ExtractionModel { source: shift_down(e.source, idx), target_idx: shift_down(e.target_idx, idx), ..e })
        } else {
            rest
        }
    }
}

/// The extractions after inserting a request at `pos`: indices at or past it move up by one.
pub open spec fn exts_after_insert(exts: Seq<ExtractionModel>, pos: nat) -> Seq<ExtractionModel> {
    Seq::new(exts.len(), |i: int| ExtractionModel { source: shift_up(exts[i].source, pos), target_idx: shift_up(exts[i].target_idx, pos), ..exts[i] })
}

/// The method names a sequence mutation may set.
pub open spec fn all_methods() -> Seq<Seq<char>> {
    seq!["GET"@, "POST"@, "PUT"@, "DELETE"@, "PATCH"@, "OPTIONS"@, "HEAD"@]
}

/// The method names an inserted request may get.
pub open spec fn basic_methods() -> Seq<Seq<char>> {
    seq!["GET"@, "POST"@, "PUT"@, "DELETE"@, "PATCH"@]
}

fn method_name_at(i: usize) -> (r: String)
    requires
        i < 7,
    ensures
        r@ == all_methods()[i as int],
        i < 5 ==> r@ == basic_methods()[i as int],
{
    let s = if i == 0 {
        "GET"
    } else if i == 1 {
        "POST"
    } else if i == 2 {
        "PUT"
    } else if i == 3 {
        "DELETE"
    } else if i == 4 {
        "PATCH"
    } else if i == 5 {
        "OPTIONS"
    } else {
        "HEAD"
    };
    s.to_owned()
}

/// Two different requests swapped, unless there are fewer than two.
pub open spec fn swapped(o: FuzzRequestSequence, n: FuzzRequestSequence) -> bool {
    if o.requests@.len() < 2 {
        n == o
    } else {
        &&& exists|a: int, b: int|
            0 <= a < o.requests@.len() && 0 <= b < o.requests@.len() && a != b && n.requests@ == #[trigger] o.requests@.update(
                a,
                o.requests@[b],
            ).update(b, o.requests@[a])
        &&& n.state_extractions@ == o.state_extractions@
    }
}

/// A copy of a random request inserted right after it, unless there are twenty already.
pub open spec fn duplicated(o: FuzzRequestSequence, n: FuzzRequestSequence) -> bool {
    if o.requests@.len() >= MAX_SEQUENCE_LEN {
        n == o
    } else {
        &&& exists|idx: int|
            0 <= idx < o.requests@.len() && reqs_view(n.requests@) == #[trigger] reqs_view(o.requests@).insert(
                idx + 1,
                o.requests@[idx]@,
            )
        &&& n.state_extractions@ == o.state_extractions@
    }
}

/// A random request removed with the extractions naming it, unless only one is left.
pub open spec fn removed(o: FuzzRequestSequence, n: FuzzRequestSequence) -> bool {
    if o.requests@.len() <= 1 {
        n == o
    } else {
        exists|idx: int|
            0 <= idx < o.requests@.len() && n.requests@ == #[trigger] o.requests@.remove(idx) && exts_view(n.state_extractions@)
                == exts_after_remove(exts_view(o.state_extractions@), idx as nat)
    }
}

/// Swaps requests `a` and `b`; the extractions stay as they are.
pub fn swap_requests(input: &mut FuzzRequestSequence, a: usize, b: usize)
    requires
        a < old(input).requests@.len(),
        b < old(input).requests@.len(),
        a != b,
    ensures
        final(input).requests@ == old(input).requests@.update(a as int, old(input).requests@[b as int]).update(
            b as int,
            old(input).requests@[a as int],
        ),
        final(input).state_extractions@ == old(input).state_extractions@,
{
    let ghost r0 = input.requests@;
    let (lo, hi) = if a < b { (a, b) } else { (b, a) };
    let x = input.requests.remove(hi);
    let y = input.requests.remove(lo);
    input.requests.insert(lo, x);
    input.requests.insert(hi, y);
    assert(input.requests@ =~= r0.update(a as int, r0[b as int]).update(b as int, r0[a as int]));
}

/// Swaps two different requests picked at random. Sequences of fewer than two requests stay.
pub fn mutate_swap(rand: &mut RomuDuoJrRand, input: &mut FuzzRequestSequence)
    ensures
        final(input).requests@.len() == old(input).requests@.len(),
        swapped(*old(input), *final(input)),
        old(input).wf() ==> final(input).wf(),
        exts_in_range(exts_view(old(input).state_extractions@), old(input).requests@.len()) ==> exts_in_range(
            exts_view(final(input).state_extractions@),
            final(input).requests@.len(),
        ),
{
    let len = input.requests.len();
    if len < 2 {
        return;
    }
    let idx_a = rand_below(rand, len);
    // The second index is drawn among the other `len - 1` indices.
    let pick = rand_below(rand, len - 1);
    let idx_b = if pick >= idx_a { pick + 1 } else { pick };
    let ghost o = *input;
    swap_requests(input, idx_a, idx_b);
    assert(input.requests@ == o.requests@.update(idx_a as int, o.requests@[idx_b as int]).update(idx_b as int, o.requests@[idx_a as int]));
    assert(forall|i: int| 0 <= i < input.requests@.len() ==> #[trigger] input.requests@[i] == o.requests@[i] || input.requests@[i] == o.requests@[idx_a as int] || input.requests@[i] == o.requests@[idx_b as int]);
}


/// Inserts a copy of request `idx` right after it; the extractions stay as they are.
pub fn duplicate_request(input: &mut FuzzRequestSequence, idx: usize)
    requires
        idx < old(input).requests@.len(),
    ensures
        reqs_view(final(input).requests@) == reqs_view(old(input).requests@).insert(idx + 1, old(input).requests@[idx as int]@),
        final(input).state_extractions@ == old(input).state_extractions@,
        old(input).wf() ==> final(input).wf(),
{
    let ghost r0 = input.requests@;
    let _n = input.requests.len();
    let cloned = input.requests[idx].clone();
    input.requests.insert(idx + 1, cloned);
    assert(reqs_view(input.requests@) =~= reqs_view(r0).insert(idx + 1, r0[idx as int]@));
    assert(forall|i: int| 0 <= i < input.requests@.len() ==> #[trigger] input.requests@[i] == r0.insert(idx + 1, cloned)[i]);
}

/// Duplicates a random request, unless the sequence already has twenty.
pub fn mutate_duplicate(rand: &mut RomuDuoJrRand, input: &mut FuzzRequestSequence)
    requires
        old(input).requests@.len() > 0,
    ensures
        final(input).requests@.len() == if old(input).requests@.len() >= MAX_SEQUENCE_LEN { old(input).requests@.len() } else { old(input).requests@.len() + 1 },
        duplicated(*old(input), *final(input)),
        old(input).wf() ==> final(input).wf(),
        exts_in_range(exts_view(old(input).state_extractions@), old(input).requests@.len()) ==> exts_in_range(
            exts_view(final(input).state_extractions@),
            final(input).requests@.len(),
        ),
{
    if input.requests.len() >= MAX_SEQUENCE_LEN {
        return;
    }
    let idx = rand_below(rand, input.requests.len());
    let ghost before = *input;
    duplicate_request(input, idx);
    proof {
        assert(reqs_view(input.requests@).len() == input.requests@.len());
        assert(reqs_view(before.requests@).len() == before.requests@.len());
        lemma_in_range_grows(exts_view(before.state_extractions@), before.requests@.len(), input.requests@.len());
    }
}

/// Removes request `idx` and the extractions that name it; later indices move down.
pub fn remove_request(input: &mut FuzzRequestSequence, idx: usize)
    requires
        idx < old(input).requests@.len(),
    ensures
        final(input).requests@ == old(input).requests@.remove(idx as int),
        exts_view(final(input).state_extractions@) == exts_after_remove(exts_view(old(input).state_extractions@), idx as nat),
        old(input).wf() ==> final(input).wf(),
{
    let ghost r0 = input.requests@;
    input.requests.remove(idx);
    assert(forall|i: int| 0 <= i < input.requests@.len() ==> #[trigger] input.requests@[i] == r0.remove(idx as int)[i]);
    let ghost exts = exts_view(input.state_extractions@);
    let mut kept: Vec<StateExtraction> = Vec::new();
    let mut i: usize = 0;
    while i < input.state_extractions.len()
        invariant
            i <= input.state_extractions.len(),
            exts == exts_view(input.state_extractions@),
            exts_view(kept@) == exts_after_remove(exts.take(i as int), idx as nat),
        decreases input.state_extractions.len() - i,
    {
        proof {
            assert(exts.take(i + 1).drop_last() =~= exts.take(i as int));
            assert(exts.take(i + 1).last() == input.state_extractions@[i as int]@);
        }
        let e = &input.state_extractions[i];
        if e.source_request_idx != idx && e.target_request_idx != idx {
            let mut c = e.clone();
            if c.source_request_idx > idx {
                c.source_request_idx = c.source_request_idx - 1;
            }
            if c.target_request_idx > idx {
                c.target_request_idx = c.target_request_idx - 1;
            }
            let ghost before = exts_view(kept@);
            kept.push(c);
            assert(exts_view(kept@) =~= before.push(c@));
        }
        i += 1;
    }
    assert(exts.take(input.state_extractions.len() as int) =~= exts);
    input.state_extractions = kept;
}

/// Removes a random request, unless only one is left.
pub fn mutate_remove(rand: &mut RomuDuoJrRand, input: &mut FuzzRequestSequence)
    ensures
        final(input).requests@.len() == if old(input).requests@.len() <= 1 { old(input).requests@.len() } else { (old(input).requests@.len() - 1) as nat },
        removed(*old(input), *final(input)),
        old(input).wf() ==> final(input).wf(),
        exts_in_range(exts_view(old(input).state_extractions@), old(input).requests@.len()) ==> exts_in_range(
            exts_view(final(input).state_extractions@),
            final(input).requests@.len(),
        ),
{
    if input.requests.len() <= 1 {
        return;
    }
    let idx = rand_below(rand, input.requests.len());
    let ghost before = *input;
    remove_request(input, idx);
    proof {
        if exts_in_range(exts_view(before.state_extractions@), before.requests@.len()) {
            law_remove_keeps_extractions_in_range(exts_view(before.state_extractions@), before.requests@.len(), idx as nat);
        }
    }
}

/// Inserts `request` at `pos`; extraction indices at or past `pos` move up.
pub fn insert_request(input: &mut FuzzRequestSequence, pos: usize, request: FuzzHttpRequest)
    requires
        pos <= old(input).requests@.len(),
        exts_below_max(exts_view(old(input).state_extractions@)),
    ensures
        final(input).requests@ == old(input).requests@.insert(pos as int, request),
        exts_view(final(input).state_extractions@) == exts_after_insert(exts_view(old(input).state_extractions@), pos as nat),
        old(input).wf() && request.wf() ==> final(input).wf(),
{
    let ghost r0 = input.requests@;
    input.requests.insert(pos, request);
    assert(forall|i: int| 0 <= i < input.requests@.len() ==> #[trigger] input.requests@[i] == r0.insert(pos as int, request)[i]);
    let ghost exts = exts_view(input.state_extractions@);
    let mut out: Vec<StateExtraction> = Vec::new();
    let mut i: usize = 0;
    while i < input.state_extractions.len()
        invariant
            i <= input.state_extractions.len(),
            exts == exts_view(input.state_extractions@),
            exts_below_max(exts),
            exts_view(out@) == exts_after_insert(exts, pos as nat).take(i as int),
        decreases input.state_extractions.len() - i,
    {
        let mut c = input.state_extractions[i].clone();
        assert(exts[i as int] == input.state_extractions@[i as int]@);
        if c.source_request_idx >= pos {
            c.source_request_idx = c.source_request_idx + 1;
        }
        if c.target_request_idx >= pos {
            c.target_request_idx = c.target_request_idx + 1;
        }
        let ghost before = exts_view(out@);
        proof {
            let want = exts_after_insert(exts, pos as nat)[i as int];
            assert(c@.source == want.source);
            assert(c@.target_idx == want.target_idx);
            assert(c@.path == want.path);
            assert(c@.target == want.target);
            assert(c@ == want);
        }
        let ghost cv = c@;
        out.push(c);
        assert(exts_view(out@) =~= before.push(cv));
        assert(exts_view(out@) =~= exts_after_insert(exts, pos as nat).take(i + 1));
        i += 1;
    }
    assert(exts_after_insert(exts, pos as nat).take(input.state_extractions.len() as int) =~= exts_after_insert(exts, pos as nat));
    input.state_extractions = out;
}


/// The request model with another method name.
pub open spec fn with_method(r: RequestModel, m: Seq<char>) -> RequestModel {
    RequestModel { method: m, ..r }
}

/// The three ways an inserted copy of a request differs from it.
pub open spec fn insert_variant(r: RequestModel, n: RequestModel) -> bool {
    ||| exists|k: int| 0 <= k < 5 && n == with_method(r, #[trigger] basic_methods()[k])
    ||| exists|k: nat| k < 99999 && n == RequestModel {
        query_params: crate::string_map::insert_entry(r.query_params, "fuzz_inserted"@, #[trigger] decimal(k)),
        ..r
    }
    ||| n == RequestModel { body: None, ..r }
}

/// A random request copied, changed by `insert_variant`, and inserted at a random place,
/// unless the sequence is empty or already has twenty requests.
pub open spec fn inserted(o: FuzzRequestSequence, n: FuzzRequestSequence) -> bool {
    if o.requests@.len() >= MAX_SEQUENCE_LEN || o.requests@.len() == 0 {
        n == o
    } else {
        exists|src: int, pos: int, nr: RequestModel|
            #![trigger o.requests@[src], reqs_view(o.requests@).insert(pos, nr)]
            0 <= src < o.requests@.len() && 0 <= pos <= o.requests@.len() && insert_variant(o.requests@[src]@, nr)
                && reqs_view(n.requests@) == reqs_view(o.requests@).insert(pos, nr)
                && exts_view(n.state_extractions@) == exts_after_insert(exts_view(o.state_extractions@), pos as nat)
    }
}

/// A random request given one of seven method names.
pub open spec fn method_swapped(o: FuzzRequestSequence, n: FuzzRequestSequence) -> bool {
    if o.requests@.len() == 0 {
        n == o
    } else {
        &&& exists|idx: int, k: int|
            0 <= idx < o.requests@.len() && 0 <= k < 7 && reqs_view(n.requests@) == #[trigger] reqs_view(o.requests@).update(
                idx,
                with_method(o.requests@[idx]@, all_methods()[k]),
            )
        &&& n.state_extractions@ == o.state_extractions@
    }
}

/// Inserts, at a random place, a changed copy of a random request.
pub fn mutate_insert(rand: &mut RomuDuoJrRand, input: &mut FuzzRequestSequence)
    requires
        old(input).wf(),
        exts_below_max(exts_view(old(input).state_extractions@)),
    ensures
        final(input).requests@.len() == if old(input).requests@.len() >= MAX_SEQUENCE_LEN || old(input).requests@.len() == 0 { old(input).requests@.len() } else { old(input).requests@.len() + 1 },
        inserted(*old(input), *final(input)),
        final(input).wf(),
        exts_in_range(exts_view(old(input).state_extractions@), old(input).requests@.len()) ==> exts_in_range(
            exts_view(final(input).state_extractions@),
            final(input).requests@.len(),
        ),
{
    let len = input.requests.len();
    if len >= MAX_SEQUENCE_LEN || len == 0 {
        return;
    }
    let source_idx = rand_below(rand, len);
    let mut new_request = input.requests[source_idx].clone();
    let ghost r = input.requests@[source_idx as int]@;
    assert(input.requests@[source_idx as int].wf());
    let mutation_type = rand_below(rand, 3);
    if mutation_type == 0 {
        let k = rand_below(rand, 5);
        new_request.method = method_name_at(k);
        assert(new_request@ == with_method(r, basic_methods()[k as int]));
    } else if mutation_type == 1 {
        let k = rand_below(rand, 99999);
        let value = string_of(&u64_decimal(k as u64));
        new_request.query_params.insert("fuzz_inserted".to_owned(), value);
        assert(new_request@ == RequestModel {
            query_params: crate::string_map::insert_entry(r.query_params, "fuzz_inserted"@, decimal(k as nat)),
            ..r
        });
    } else {
        new_request.body = None;
        assert(new_request@ == RequestModel { body: None, ..r });
    }
    let ghost nr = new_request@;
    let ghost o = *input;
    let insert_pos = rand_below(rand, len + 1);
    insert_request(input, insert_pos, new_request);
    assert(reqs_view(input.requests@) =~= reqs_view(o.requests@).insert(insert_pos as int, nr));
    proof {
        if exts_in_range(exts_view(o.state_extractions@), o.requests@.len()) {
            law_insert_keeps_extraction_endpoints(reqs_view(o.requests@), exts_view(o.state_extractions@), insert_pos as nat, nr);
        }
    }
}

/// Gives request `idx` the method name `m`.
pub fn set_method(input: &mut FuzzRequestSequence, idx: usize, m: String)
    requires
        idx < old(input).requests@.len(),
    ensures
        reqs_view(final(input).requests@) == reqs_view(old(input).requests@).update(idx as int, with_method(old(input).requests@[idx as int]@, m@)),
        final(input).requests@.len() == old(input).requests@.len(),
        final(input).state_extractions@ == old(input).state_extractions@,
        old(input).wf() ==> final(input).wf(),
{
    let ghost r0 = input.requests@;
    let mut req = input.requests.remove(idx);
    req.method = m;
    input.requests.insert(idx, req);
    assert(reqs_view(input.requests@) =~= reqs_view(r0).update(idx as int, with_method(r0[idx as int]@, m@)));
    assert(forall|i: int| 0 <= i < input.requests@.len() && i != idx ==> #[trigger] input.requests@[i] == r0[i]);
}

/// Gives a random request one of seven method names.
pub fn mutate_method_swap(rand: &mut RomuDuoJrRand, input: &mut FuzzRequestSequence)
    ensures
        final(input).requests@.len() == old(input).requests@.len(),
        method_swapped(*old(input), *final(input)),
        old(input).wf() ==> final(input).wf(),
        exts_in_range(exts_view(old(input).state_extractions@), old(input).requests@.len()) ==> exts_in_range(
            exts_view(final(input).state_extractions@),
            final(input).requests@.len(),
        ),
{
    if input.requests.len() == 0 {
        return;
    }
    let idx = rand_below(rand, input.requests.len());
    let k = rand_below(rand, 7);
    set_method(input, idx, method_name_at(k));
}

/// Mutates request sequences by swapping, duplicating, removing, inserting or renaming methods.
#[derive(Debug)]
pub struct SequenceMutator {}

impl SequenceMutator {
    pub fn new() -> (r: Self) {
        SequenceMutator {}
    }

    /// One of five structural mutations, picked at random; an empty sequence is skipped.
    pub fn mutate(&mut self, rand: &mut RomuDuoJrRand, input: &mut FuzzRequestSequence) -> (r: MutationOutcome)
        requires
            old(input).wf(),
            exts_below_max(exts_view(old(input).state_extractions@)),
        ensures
            1 <= old(input).requests@.len() <= MAX_SEQUENCE_LEN ==> 1 <= final(input).requests@.len() <= MAX_SEQUENCE_LEN,
            old(input).requests@.len() == 0 ==> r == MutationOutcome::Skipped && *final(input) == *old(input),
            old(input).requests@.len() > 0 ==> r == MutationOutcome::Mutated && (
                swapped(*old(input), *final(input))
                || duplicated(*old(input), *final(input))
                || removed(*old(input), *final(input))
                || inserted(*old(input), *final(input))
                || method_swapped(*old(input), *final(input))),
            final(input).wf(),
            exts_in_range(exts_view(old(input).state_extractions@), old(input).requests@.len()) ==> exts_in_range(
                exts_view(final(input).state_extractions@),
                final(input).requests@.len(),
            ),
    {
        if input.requests.len() == 0 {
            return MutationOutcome::Skipped;
        }
        let choice = rand_below(rand, 5);
        if choice == 0 {
            mutate_swap(rand, input);
        } else if choice == 1 {
            mutate_duplicate(rand, input);
        } else if choice == 2 {
            mutate_remove(rand, input);
        } else if choice == 3 {
            mutate_insert(rand, input);
        } else {
            mutate_method_swap(rand, input);
        }
        MutationOutcome::Mutated
    }
}

proof fn lemma_in_range_grows(exts: Seq<ExtractionModel>, n: nat, m: nat)
    requires
        n <= m,
    ensures
        exts_in_range(exts, n) ==> exts_in_range(exts, m),
{
}

/// Removing a request keeps every surviving extraction inside the shorter sequence.
pub proof fn law_remove_keeps_extractions_in_range(exts: Seq<ExtractionModel>, n: nat, idx: nat)
    requires
        exts_in_range(exts, n),
        idx < n,
    ensures
        exts_in_range(exts_after_remove(exts, idx), (n - 1) as nat),
    decreases exts.len(),
{
    if exts.len() > 0 {
        assert(exts_in_range(exts.drop_last(), n)) by {
            assert forall|i: int| 0 <= i < exts.drop_last().len() implies ext_in_range(#[trigger] exts.drop_last()[i], n) by {
                assert(exts.drop_last()[i] == exts[i]);
            }
        }
        law_remove_keeps_extractions_in_range(exts.drop_last(), n, idx);
        assert(ext_in_range(exts[exts.len() - 1], n));
    }
}

/// Removing a request leaves every surviving extraction naming the same requests as before.
pub proof fn law_remove_keeps_extraction_endpoints(reqs: Seq<RequestModel>, exts: Seq<ExtractionModel>, idx: nat)
    requires
        exts_in_range(exts, reqs.len()),
        idx < reqs.len(),
    ensures
        forall|i: int| 0 <= i < exts_after_remove(exts, idx).len() ==> {
            let e = #[trigger] exts_after_remove(exts, idx)[i];
            exists|j: int| 0 <= j < exts.len() && exts[j].source != idx && exts[j].target_idx != idx
                && reqs.remove(idx as int)[e.source as int] == reqs[exts[j].source as int]
                && reqs.remove(idx as int)[e.target_idx as int] == reqs[exts[j].target_idx as int]
                && e.path == exts[j].path && e.target == exts[j].target
        },
    decreases exts.len(),
{
    if exts.len() > 0 {
        let d = exts.drop_last();
        assert(exts_in_range(d, reqs.len())) by {
            assert forall|i: int| 0 <= i < d.len() implies ext_in_range(#[trigger] d[i], reqs.len()) by {
                assert(d[i] == exts[i]);
            }
        }
        law_remove_keeps_extraction_endpoints(reqs, d, idx);
        let rest = exts_after_remove(d, idx);
        let last = exts.last();
        assert(ext_in_range(exts[exts.len() - 1], reqs.len()));
        assert forall|i: int| 0 <= i < exts_after_remove(exts, idx).len() implies {
            let e = #[trigger] exts_after_remove(exts, idx)[i];
            exists|j: int| 0 <= j < exts.len() && exts[j].source != idx && exts[j].target_idx != idx
                && reqs.remove(idx as int)[e.source as int] == reqs[exts[j].source as int]
                && reqs.remove(idx as int)[e.target_idx as int] == reqs[exts[j].target_idx as int]
                && e.path == exts[j].path && e.target == exts[j].target
        } by {
            let e = exts_after_remove(exts, idx)[i];
            if i < rest.len() {
                assert(e == rest[i]);
                let j = choose|j: int| 0 <= j < d.len() && d[j].source != idx && d[j].target_idx != idx
                    && reqs.remove(idx as int)[rest[i].source as int] == reqs[d[j].source as int]
                    && reqs.remove(idx as int)[rest[i].target_idx as int] == reqs[d[j].target_idx as int]
                    && rest[i].path == d[j].path && rest[i].target == d[j].target;
                assert(d[j] == exts[j]);
            } else {
                let j = exts.len() - 1;
                assert(exts[j] == last);
            }
        }
    }
}

/// Inserting a request keeps every extraction naming the same requests as before.
pub proof fn law_insert_keeps_extraction_endpoints(reqs: Seq<RequestModel>, exts: Seq<ExtractionModel>, pos: nat, r: RequestModel)
    requires
        exts_in_range(exts, reqs.len()),
        pos <= reqs.len(),
    ensures
        exts_in_range(exts_after_insert(exts, pos), reqs.len() + 1),
        forall|i: int| 0 <= i < exts.len() ==> {
            let e = #[trigger] exts_after_insert(exts, pos)[i];
            reqs.insert(pos as int, r)[e.source as int] == reqs[exts[i].source as int]
                && reqs.insert(pos as int, r)[e.target_idx as int] == reqs[exts[i].target_idx as int]
        },
{
    assert forall|i: int| 0 <= i < exts.len() implies {
        let e = #[trigger] exts_after_insert(exts, pos)[i];
        reqs.insert(pos as int, r)[e.source as int] == reqs[exts[i].source as int]
            && reqs.insert(pos as int, r)[e.target_idx as int] == reqs[exts[i].target_idx as int]
    } by {
        assert(ext_in_range(exts[i], reqs.len()));
    }
    assert forall|i: int| 0 <= i < exts_after_insert(exts, pos).len() implies ext_in_range(#[trigger] exts_after_insert(exts, pos)[i], reqs.len() + 1) by {
        assert(ext_in_range(exts[i], reqs.len()));
    }
}

} // verus!
