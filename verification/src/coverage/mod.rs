//! Coverage collection: decoding coverage bitmaps and tracking which edges a run reached.
use vstd::prelude::*;
use crate::string_map::StringMap;

pub mod header;
pub mod jacoco;
pub mod observer;
pub mod feedback;

pub use header::{HeaderCoverageCollector, HeaderEncoding};
pub use jacoco::JacocoCoverageCollector;
pub use observer::CoverageMapObserver;
pub use feedback::CoverageFeedback;

verus! {

/// Number of slots in every coverage bitmap.
pub const COVERAGE_MAP_SIZE: usize = 65536;

#[verifier::external_type_specification]
#[verifier::external_body]
pub struct ExIoError(std::io::Error);

/// Why coverage could not be collected.
#[derive(Debug)]
pub enum CoverageError {
    Io(std::io::Error),
    Parse(String),
    Connection(String),
}

/// Spells out an I/O error through its `Display` impl.
#[verifier::external_body]
fn io_error_text(e: &std::io::Error) -> String {
    e.to_string()
}

impl CoverageError {
    /// The message the error displays: its kind, a colon, and its detail.
    pub fn message(&self) -> (r: String)
        ensures
            self matches CoverageError::Parse(m) ==> r@ == "Parse error: "@ + m@,
            self matches CoverageError::Connection(m) ==> r@ == "Connection error: "@ + m@,
    {
        let mut out = String::new();
        match self {
            CoverageError::Io(e) => {
                out.append("IO error: ");
                out.append(io_error_text(e).as_str());
            },
            CoverageError::Parse(m) => {
                out.append("Parse error: ");
                out.append(m.as_str());
            },
            CoverageError::Connection(m) => {
                out.append("Connection error: ");
                out.append(m.as_str());
            },
        }
        out
    }
}

impl From<std::io::Error> for CoverageError {
    fn from(e: std::io::Error) -> (r: Self) {
        CoverageError::Io(e)
    }
}

impl vstd::std_specs::convert::FromSpecImpl<std::io::Error> for CoverageError {
    open spec fn obeys_from_spec() -> bool {
        true
    }

    open spec fn from_spec(e: std::io::Error) -> CoverageError {
        CoverageError::Io(e)
    }
}

/// A source of coverage bitmaps, asked once after every response.
pub trait CoverageCollector {
    /// Whether `collect_coverage` can run on these headers.
    spec fn collect_requires(&self, response_headers: &StringMap) -> bool;

    /// Whether `r` is what `collect_coverage` answers for these headers.
    spec fn collected(&self, response_headers: &StringMap, r: Result<Vec<u8>, CoverageError>) -> bool;

    /// The coverage bitmap of the last run.
    fn collect_coverage(&mut self, response_headers: &StringMap) -> (r: Result<Vec<u8>, CoverageError>)
        requires
            old(self).collect_requires(response_headers),
        ensures
            old(self).collected(response_headers, r),
    ;

    /// Forgets the coverage gathered so far.
    fn reset(&mut self) -> Result<(), CoverageError>;

    /// Number of slots in the bitmaps this collector returns.
    fn map_size(&self) -> usize;

    /// A short name for the collector.
    fn name(&self) -> &str;
}

/// `n` zero bytes.
pub fn zeros(n: usize) -> (v: Vec<u8>)
    ensures
        v@ == Seq::new(n as nat, |i: int| 0u8),
{
    let mut v: Vec<u8> = Vec::new();
    let mut i: usize = 0;
    while i < n
        invariant
            i <= n,
            v@ == Seq::new(i as nat, |k: int| 0u8),
        decreases n - i,
    {
        v.push(0u8);
        assert(v@ =~= Seq::new(i as nat + 1, |k: int| 0u8));
        i += 1;
    }
    v
}

} // verus!
