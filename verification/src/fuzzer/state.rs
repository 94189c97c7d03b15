//! A plain record of the requests run and which of them were interesting.
use vstd::prelude::*;
use super::input::FuzzHttpRequest;

verus! {

/// The status and body of the last response.
#[derive(Debug)]
pub struct HttpObserver {
    pub last_status_code: Option<u16>,
    pub last_response_body: Option<String>,
}

impl HttpObserver {
    /// An observer that has seen nothing.
    pub fn new() -> (r: Self)
        ensures
            r.last_status_code is None,
            r.last_response_body is None,
    {
        HttpObserver { last_status_code: None, last_response_body: None }
    }
}

/// A request that was run, its status, and whether it was interesting.
#[derive(Debug)]
pub struct CorpusEntry {
    pub input: FuzzHttpRequest,
    pub status_code: u16,
    pub interesting: bool,
}

/// The requests run so far, in order.
#[derive(Debug)]
pub struct FuzzCorpus {
    pub entries: Vec<CorpusEntry>,
}

impl FuzzCorpus {
    /// An empty corpus.
    pub fn new() -> (r: Self)
        ensures
            r.entries@.len() == 0,
    {
        FuzzCorpus { entries: Vec::new() }
    }

    /// Adds a request with its status and whether it was interesting, after the others.
    pub fn add(&mut self, input: FuzzHttpRequest, status_code: u16, interesting: bool)
        ensures
            final(self).entries@ == old(self).entries@.push(CorpusEntry { input, status_code, interesting }),
    {
        self.entries.push(CorpusEntry { input, status_code, interesting });
    }

    /// The interesting entries, in order.
    pub fn interesting_entries(&self) -> (r: Vec<&CorpusEntry>)
        ensures
            r@.len() <= self.entries@.len(),
            forall|i: int| 0 <= i < r@.len() ==> (#[trigger] r@[i]).interesting,
            derefs(r@) == interesting_of(self.entries@),
    {
        let mut out: Vec<&CorpusEntry> = Vec::new();
        let mut i: usize = 0;
        while i < self.entries.len()
            invariant
                i <= self.entries.len(),
                derefs(out@) == interesting_of(self.entries@.take(i as int)),
                out@.len() <= i,
                forall|k: int| 0 <= k < out@.len() ==> (#[trigger] out@[k]).interesting,
            decreases self.entries.len() - i,
        {
            assert(self.entries@.take(i + 1).drop_last() =~= self.entries@.take(i as int));
            assert(self.entries@.take(i + 1).last() == self.entries@[i as int]);
            let e = &self.entries[i];
            if e.interesting {
                let ghost before = derefs(out@);
                out.push(e);
                assert(derefs(out@) =~= before.push(*e));
            }
            i += 1;
        }
        assert(self.entries@.take(self.entries.len() as int) =~= self.entries@);
        out
    }

    /// Number of entries.
    pub fn len(&self) -> (n: usize)
        ensures
            n == self.entries@.len(),
    {
        self.entries.len()
    }
}

pub open spec fn derefs(v: Seq<&CorpusEntry>) -> Seq<CorpusEntry> {
    v.map_values(|e: &CorpusEntry| *e)
}

/// The interesting entries of a list, in order.
pub open spec fn interesting_of(es: Seq<CorpusEntry>) -> Seq<CorpusEntry>
    decreases es.len(),
{
    if es.len() == 0 {
        Seq::empty()
    } else {
        let prev = interesting_of(es.drop_last());
        if es.last().interesting {
            prev.push(es.last())
        } else {
            prev
        }
    }
}

} // verus!
