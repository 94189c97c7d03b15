//! Reading the fuzzer's options from its command-line arguments.
use vstd::prelude::*;
use crate::coverage::header::HeaderEncoding;
use crate::text::{chars_of, chars_eq, has_prefix, parse_u64, parse_u64_spec, starts_with};

verus! {

/// Where coverage comes from.
#[derive(Debug)]
pub enum CoverageMode {
    Disabled,
    /// A JaCoCo execution-data file, by its path as written.
    Jacoco(String),
    /// A JaCoCo agent's TCP address.
    JacocoAgent(String),
    /// A response header, by name, and how it spells the bitmap.
    Header(String, HeaderEncoding),
}

/// The model of a coverage mode.
pub enum ModeModel {
    Disabled,
    Jacoco(Seq<char>),
    JacocoAgent(Seq<char>),
    Header(Seq<char>, HeaderEncoding),
}

impl View for CoverageMode {
    type V = ModeModel;

    open spec fn view(&self) -> ModeModel {
        match self {
            CoverageMode::Disabled => ModeModel::Disabled,
            CoverageMode::Jacoco(p) => ModeModel::Jacoco(p@),
            CoverageMode::JacocoAgent(a) => ModeModel::JacocoAgent(a@),
            CoverageMode::Header(h, e) => ModeModel::Header(h@, *e),
        }
    }
}

pub open spec fn args_view(args: Seq<String>) -> Seq<Seq<char>> {
    args.map_values(|a: String| a@)
}

/// Argument `i`, or `default` when there are not that many.
pub open spec fn arg_or(args: Seq<Seq<char>>, i: int, default: Seq<char>) -> Seq<char> {
    if 0 <= i < args.len() {
        args[i]
    } else {
        default
    }
}

/// The mode names `--coverage` takes.
pub open spec fn is_mode_name(m: Seq<char>) -> bool {
    m == "none"@ || m == "jacoco"@ || m == "jacoco-agent"@ || m == "header"@ || m == "header-hex"@
}

/// The mode that `--coverage` at `i`, followed by a mode name, selects; the argument after
/// the mode name, where there is one, is its path, address or header name.
pub open spec fn mode_at(args: Seq<Seq<char>>, i: int) -> ModeModel {
    let m = args[i + 1];
    if m == "none"@ {
        ModeModel::Disabled
    } else if m == "jacoco"@ {
        ModeModel::Jacoco(arg_or(args, i + 2, "jacoco.exec"@))
    } else if m == "jacoco-agent"@ {
        ModeModel::JacocoAgent(arg_or(args, i + 2, "localhost:6300"@))
    } else if m == "header"@ {
        ModeModel::Header(arg_or(args, i + 2, "X-Coverage-Map"@), HeaderEncoding::Base64)
    } else {
        ModeModel::Header(arg_or(args, i + 2, "X-Coverage-Bitmap"@), HeaderEncoding::Hex)
    }
}

/// The mode of the first `--coverage` at or after `i` that a mode name follows; no
/// coverage when there is none.
pub open spec fn mode_from(args: Seq<Seq<char>>, i: int) -> ModeModel
    decreases args.len() - i,
{
    if i < 0 || i >= args.len() {
        ModeModel::Disabled
    } else if args[i] == "--coverage"@ && i + 1 < args.len() && is_mode_name(args[i + 1]) {
        mode_at(args, i)
    } else {
        mode_from(args, i + 1)
    }
}

fn text_is(s: &str, lit: &str) -> (r: bool)
    ensures
        r == (s@ == lit@),
{
    chars_eq(&chars_of(s), &chars_of(lit))
}

fn arg_or_exec(args: &Vec<String>, i: usize, default: &str) -> (r: String)
    ensures
        r@ == arg_or(args_view(args@), i as int, default@),
{
    if i < args.len() {
        args[i].clone()
    } else {
        default.to_owned()
    }
}

/// The coverage mode the arguments ask for (`--coverage <mode> [<argument>]`).
pub fn parse_coverage_mode(args: &Vec<String>) -> (r: CoverageMode)
    ensures
        r@ == mode_from(args_view(args@), 0),
{
    let ghost a = args_view(args@);
    let mut i: usize = 0;
    while i < args.len()
        invariant
            i <= args.len(),
            a == args_view(args@),
            mode_from(a, 0) == mode_from(a, i as int),
        decreases args.len() - i,
    {
        assert(a[i as int] == args@[i as int]@);
        if text_is(args[i].as_str(), "--coverage") && i + 1 < args.len() {
            assert(a[i + 1] == args@[i + 1]@);
            let m = args[i + 1].as_str();
            if text_is(m, "none") {
                return CoverageMode::Disabled;
            } else if text_is(m, "jacoco") {
                return CoverageMode::Jacoco(arg_or_exec(args, i + 2, "jacoco.exec"));
            } else if text_is(m, "jacoco-agent") {
                return CoverageMode::JacocoAgent(arg_or_exec(args, i + 2, "localhost:6300"));
            } else if text_is(m, "header") {
                return CoverageMode::Header(arg_or_exec(args, i + 2, "X-Coverage-Map"), HeaderEncoding::Base64);
            } else if text_is(m, "header-hex") {
                return CoverageMode::Header(arg_or_exec(args, i + 2, "X-Coverage-Bitmap"), HeaderEncoding::Hex);
            }
        }
        i += 1;
    }
    CoverageMode::Disabled
}

/// The count that the first `--iterations` or `-n` at or after `i` gives, where the
/// argument after it reads as a `u64`.
pub open spec fn iterations_from(args: Seq<Seq<char>>, i: int) -> Option<u64>
    decreases args.len() - i,
{
    if i < 0 || i >= args.len() {
        None
    } else if (args[i] == "--iterations"@ || args[i] == "-n"@) && i + 1 < args.len() && parse_u64_spec(args[i + 1]) is Some {
        parse_u64_spec(args[i + 1])
    } else {
        iterations_from(args, i + 1)
    }
}

/// The iteration count: from `--iterations`/`-n`; else the fourth argument when it reads as
/// a `u64` and does not start with `--`; else 50.
pub open spec fn iterations_spec(args: Seq<Seq<char>>) -> u64 {
    match iterations_from(args, 0) {
        Some(n) => n,
        None => if args.len() > 3 && !starts_with(args[3], "--"@) && parse_u64_spec(args[3]) is Some {
            parse_u64_spec(args[3])->0
        } else {
            50
        },
    }
}

/// The number of fuzzing iterations the arguments ask for.
pub fn parse_iterations(args: &Vec<String>) -> (r: u64)
    ensures
        r == iterations_spec(args_view(args@)),
{
    let ghost a = args_view(args@);
    let mut i: usize = 0;
    while i < args.len()
        invariant
            i <= args.len(),
            a == args_view(args@),
            iterations_from(a, 0) == iterations_from(a, i as int),
        decreases args.len() - i,
    {
        assert(a[i as int] == args@[i as int]@);
        let arg = args[i].as_str();
        if (text_is(arg, "--iterations") || text_is(arg, "-n")) && i + 1 < args.len() {
            assert(a[i + 1] == args@[i + 1]@);
            match parse_u64(&chars_of(args[i + 1].as_str())) {
                Some(n) => {
                    return n;
                },
                None => {},
            }
        }
        i += 1;
    }
    if args.len() > 3 {
        assert(a[3] == args@[3]@);
        let s = chars_of(args[3].as_str());
        if !has_prefix(&s, &chars_of("--")) {
            match parse_u64(&s) {
                Some(n) => {
                    return n;
                },
                None => {},
            }
        }
    }
    50
}

} // verus!
