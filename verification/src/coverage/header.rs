//! Coverage bitmaps that the target sends back in a response header.
use vstd::prelude::*;
use vstd::utf8::encode_utf8;
use crate::string_map::{StringMap, Entries, first_ci_match};
use crate::text::{chars_of, string_of, append_chars, u64_decimal, decimal, is_digit, digit_value, unsigned_body, trim_whitespace, trim_ws, to_lowercase, lowercase, split_chars, split_on, views, parse_u64, parse_u64_spec};
use base64::Engine;
use super::{CoverageCollector, CoverageError, COVERAGE_MAP_SIZE, zeros};

verus! {

/// How the header spells the bitmap.
#[derive(Debug, Clone, Copy, PartialEq, Eq, Structural)]
pub enum HeaderEncoding {
    Base64,
    Hex,
    HitCounts,
}

/// Why base64 decoding failed, variant for variant as `base64::DecodeError` has it.
#[derive(Debug, Clone, Copy, PartialEq, Eq, Structural)]
pub enum Base64Error {
    /// An invalid byte at an offset.
    InvalidByte(usize, u8),
    /// An invalid number of symbols.
    InvalidLength(usize),
    /// A last symbol with bits that would be discarded, at an offset.
    InvalidLastSymbol(usize, u8),
    /// Padding that is absent or wrong.
    InvalidPadding,
}

/// What `base64::engine::general_purpose::STANDARD.decode` returns for the given bytes.
pub uninterp spec fn base64_standard_decode(input: Seq<u8>) -> Result<Seq<u8>, Base64Error>;

/// Calls `STANDARD.decode` of the `base64` crate (standard alphabet, padding required) and
/// turns its error into the same variant of `Base64Error`.
#[verifier::external_body]
fn base64_decode(input: &[u8]) -> (r: Result<Vec<u8>, Base64Error>)
    ensures
        r matches Ok(v) ==> base64_standard_decode(input@) matches Ok(d) && d == v@,
        r matches Err(e) ==> base64_standard_decode(input@) matches Err(x) && x == e,
{
    match base64::engine::general_purpose::STANDARD.decode(input) {
        Ok(v) => Ok(v),
        Err(base64::DecodeError::InvalidByte(i, b)) => Err(Base64Error::InvalidByte(i, b)),
        Err(base64::DecodeError::InvalidLength(n)) => Err(Base64Error::InvalidLength(n)),
        Err(base64::DecodeError::InvalidLastSymbol(i, b)) => Err(Base64Error::InvalidLastSymbol(i, b)),
        Err(base64::DecodeError::InvalidPadding) => Err(Base64Error::InvalidPadding),
    }
}

/// The text a base64 decoding error displays, as `Display for base64::DecodeError` writes it.
pub open spec fn base64_error_text(e: Base64Error) -> Seq<char> {
    match e {
        Base64Error::InvalidByte(i, b) => "Invalid symbol "@ + decimal(b as nat) + ", offset "@ + decimal(i as nat) + "."@,
        Base64Error::InvalidLength(n) => "Invalid input length: "@ + decimal(n as nat),
        Base64Error::InvalidLastSymbol(i, b) => "Invalid last symbol "@ + decimal(b as nat) + ", offset "@ + decimal(i as nat)
            + "."@,
        Base64Error::InvalidPadding => "Invalid padding"@,
    }
}

/// The text a base64 decoding error displays (see `base64_error_text`).
pub fn base64_error_message(e: Base64Error) -> (r: Vec<char>)
    ensures
        r@ == base64_error_text(e),
{
    match e {
        Base64Error::InvalidByte(i, b) => {
            let mut t = chars_of("Invalid symbol ");
            append_chars(&mut t, &u64_decimal(b as u64));
            append_chars(&mut t, &chars_of(", offset "));
            append_chars(&mut t, &u64_decimal(i as u64));
            append_chars(&mut t, &chars_of("."));
            t
        },
        Base64Error::InvalidLength(n) => {
            let mut t = chars_of("Invalid input length: ");
            append_chars(&mut t, &u64_decimal(n as u64));
            t
        },
        Base64Error::InvalidLastSymbol(i, b) => {
            let mut t = chars_of("Invalid last symbol ");
            append_chars(&mut t, &u64_decimal(b as u64));
            append_chars(&mut t, &chars_of(", offset "));
            append_chars(&mut t, &u64_decimal(i as u64));
            append_chars(&mut t, &chars_of("."));
            t
        },
        Base64Error::InvalidPadding => chars_of("Invalid padding"),
    }
}

/// The bitmap cut or zero-padded to `n` bytes.
pub open spec fn normalized(d: Seq<u8>, n: nat) -> Seq<u8> {
    if d.len() >= n {
        d.take(n as int)
    } else {
        d + Seq::new((n - d.len()) as nat, |i: int| 0u8)
    }
}

/// A decoded bitmap is always as long as the map: its first bytes are the decoded ones and
/// the rest are zero.
pub proof fn law_normalized_shape(d: Seq<u8>, n: nat)
    ensures
        normalized(d, n).len() == n,
        forall|i: int| 0 <= i < n && i < d.len() ==> #[trigger] normalized(d, n)[i] == d[i],
        forall|i: int| d.len() <= i < n ==> #[trigger] normalized(d, n)[i] == 0,
{
}

pub open spec fn is_hex_byte(x: u8) -> bool {
    (48 <= x <= 57) || (65 <= x <= 70) || (97 <= x <= 102)
}

pub open spec fn hex_byte_value(x: u8) -> nat {
    if 48 <= x <= 57 {
        (x - 48) as nat
    } else if 65 <= x <= 70 {
        (x - 55) as nat
    } else {
        (x - 87) as nat
    }
}

/// What `u8::from_str_radix(pair, 16)` gives for a two-byte pair: two hex digits,
/// or a `+` sign and one hex digit.
pub open spec fn hex_pair(b0: u8, b1: u8) -> Option<u8> {
    if is_hex_byte(b0) && is_hex_byte(b1) {
        Some((hex_byte_value(b0) * 16 + hex_byte_value(b1)) as u8)
    } else if b0 == 43 && is_hex_byte(b1) {
        Some(hex_byte_value(b1) as u8)
    } else {
        None
    }
}

pub open spec fn is_continuation(x: u8) -> bool {
    128 <= x < 192
}

/// Outcome of decoding the bytes of an even-length hex string pair by pair.
pub enum HexOutcome {
    Bytes(Seq<u8>),
    /// Some pair is not a hex number.
    Invalid,
    /// The first bad pair is cut off inside a multi-byte character, where slicing the string panics.
    Panics,
}

pub open spec fn hex_decode(b: Seq<u8>) -> HexOutcome
    decreases b.len(),
{
    if b.len() < 2 {
        HexOutcome::Bytes(Seq::empty())
    } else {
        match hex_pair(b[0], b[1]) {
            Some(x) => match hex_decode(b.skip(2)) {
                HexOutcome::Bytes(r) => HexOutcome::Bytes(seq![x] + r),
                o => o,
            },
            None => if b.len() > 2 && is_continuation(b[2]) {
                HexOutcome::Panics
            } else {
                HexOutcome::Invalid
            },
        }
    }
}

/// The count one comma-separated piece spells, clamped to 255.
pub open spec fn hit_count(piece: Seq<char>) -> Option<u8> {
    match parse_u64_spec(trim_ws(piece)) {
        Some(v) => Some(if v > 255 { 255u8 } else { v as u8 }),
        None => None,
    }
}

/// The counts of all non-empty pieces, or `None` if one of them is not a number.
pub open spec fn hit_counts(pieces: Seq<Seq<char>>) -> Option<Seq<u8>>
    decreases pieces.len(),
{
    if pieces.len() == 0 {
        Some(Seq::empty())
    } else {
        let rest = hit_counts(pieces.drop_first());
        if pieces[0].len() == 0 {
            rest
        } else {
            match (hit_count(pieces[0]), rest) {
                (Some(x), Some(r)) => Some(seq![x] + r),
                _ => None,
            }
        }
    }
}

/// The message `str::parse::<u64>` reports for digits `d` that follow the value `acc`: at
/// the first character that is not a digit, an invalid digit; where the value would pass
/// `u64::MAX`, an overflow.
pub open spec fn u64_scan_error(d: Seq<char>, acc: nat) -> Seq<char>
    decreases d.len(),
{
    if d.len() == 0 || !is_digit(d[0]) {
        "invalid digit found in string"@
    } else if acc * 10 + digit_value(d[0]) > u64::MAX {
        "number too large to fit in target type"@
    } else {
        u64_scan_error(d.skip(1), acc * 10 + digit_value(d[0]))
    }
}

/// The message of the error `str::parse::<u64>` gives for `s`, where it fails: empty text,
/// a sign alone, an invalid digit or an overflow.
pub open spec fn u64_parse_error(s: Seq<char>) -> Seq<char> {
    if s.len() == 0 {
        "cannot parse integer from empty string"@
    } else {
        u64_scan_error(unsigned_body(s), 0)
    }
}

/// The message of the error of the first non-empty piece whose count does not parse.
pub open spec fn hit_counts_error(pieces: Seq<Seq<char>>) -> Seq<char>
    decreases pieces.len(),
{
    if pieces.len() == 0 {
        Seq::empty()
    } else if pieces[0].len() > 0 && hit_count(pieces[0]) is None {
        u64_parse_error(trim_ws(pieces[0]))
    } else {
        hit_counts_error(pieces.drop_first())
    }
}

/// The bytes the hex decoder reads: the UTF-8 encoding of the trimmed header.
pub open spec fn hex_input(raw: Seq<char>) -> Seq<u8> {
    encode_utf8(trim_ws(raw))
}

/// The decoded bitmap before it is cut or padded to the map size.
pub open spec fn raw_decoding(encoding: HeaderEncoding, raw: Seq<char>) -> Option<Seq<u8>> {
    match encoding {
        HeaderEncoding::Base64 => match base64_standard_decode(encode_utf8(trim_ws(raw))) {
            Ok(d) => Some(d),
            Err(_) => None,
        },
        HeaderEncoding::Hex => {
            let b = hex_input(raw);
            if b.len() % 2 != 0 {
                None
            } else {
                match hex_decode(b) {
                    HexOutcome::Bytes(d) => Some(d),
                    _ => None,
                }
            }
        },
        HeaderEncoding::HitCounts => hit_counts(split_on(trim_ws(raw), ',')),
    }
}

/// What decoding a header value gives: the bitmap cut or padded to `n` bytes, or the
/// message of the parse error, as the decoder for `encoding` words it.
pub open spec fn decode_outcome(encoding: HeaderEncoding, raw: Seq<char>, n: nat) -> Result<Seq<u8>, Seq<char>> {
    match encoding {
        HeaderEncoding::Base64 => match base64_standard_decode(encode_utf8(trim_ws(raw))) {
            Ok(d) => Ok(normalized(d, n)),
            Err(e) => Err("Invalid base64 coverage data: "@ + base64_error_text(e)),
        },
        HeaderEncoding::Hex => {
            let b = hex_input(raw);
            if b.len() % 2 != 0 {
                Err("Hex string has odd length"@)
            } else {
                match hex_decode(b) {
                    HexOutcome::Bytes(d) => Ok(normalized(d, n)),
                    _ => Err("Invalid hex coverage data: invalid digit found in string"@),
                }
            }
        },
        HeaderEncoding::HitCounts => {
            let ps = split_on(trim_ws(raw), ',');
            match hit_counts(ps) {
                Some(d) => Ok(normalized(d, n)),
                None => Err("Invalid hit count data: "@ + hit_counts_error(ps)),
            }
        },
    }
}

/// What collecting from the headers `hs` gives: the decoding of the first header whose name,
/// lower-cased, is `name`, or a zero bitmap of `n` bytes where there is none.
pub open spec fn collect_outcome(name: Seq<char>, encoding: HeaderEncoding, hs: Entries, n: nat) -> Result<Seq<u8>, Seq<char>> {
    match first_ci_match(hs, name) {
        Some(i) => decode_outcome(encoding, hs[i].1, n),
        None => Ok(Seq::new(n, |k: int| 0u8)),
    }
}

/// A collector made by `new(name, encoding)` reads the one header whose name equals `name`
/// without regard to case, and gives what decoding its value gives.
pub proof fn law_collect_reads_the_named_header(name: Seq<char>, encoding: HeaderEncoding, hs: Entries, i: int)
    requires
        0 <= i < hs.len(),
        lowercase(hs[i].0) == lowercase(name),
        forall|j: int| 0 <= j < hs.len() && j != i ==> lowercase(#[trigger] hs[j].0) != lowercase(name),
    ensures
        collect_outcome(lowercase(name), encoding, hs, COVERAGE_MAP_SIZE as nat) == decode_outcome(
            encoding,
            hs[i].1,
            COVERAGE_MAP_SIZE as nat,
        ),
{
    let n = lowercase(name);
    assert(0 <= i < hs.len() && lowercase(hs[i].0) == n && forall|j: int| 0 <= j < i ==> lowercase(#[trigger] hs[j].0) != n);
    let k = choose|k: int| 0 <= k < hs.len() && lowercase(hs[k].0) == n && forall|j: int| 0 <= j < k ==> lowercase(#[trigger] hs[j].0) != n;
    assert(k == i);
}

/// A collector made by `new(name, encoding)` gives a zero bitmap of the map size when no
/// header's name equals `name` without regard to case.
pub proof fn law_collect_without_the_header(name: Seq<char>, encoding: HeaderEncoding, hs: Entries)
    requires
        forall|j: int| 0 <= j < hs.len() ==> lowercase(#[trigger] hs[j].0) != lowercase(name),
    ensures
        collect_outcome(lowercase(name), encoding, hs, COVERAGE_MAP_SIZE as nat) == Ok::<Seq<u8>, Seq<char>>(
            Seq::new(COVERAGE_MAP_SIZE as nat, |k: int| 0u8),
        ),
{
}

/// A collector's result read as a bitmap or the message of a parse error; `None` for other errors.
pub open spec fn parse_outcome(r: Result<Vec<u8>, CoverageError>) -> Option<Result<Seq<u8>, Seq<char>>> {
    match r {
        Ok(v) => Some(Ok(v@)),
        Err(CoverageError::Parse(m)) => Some(Err(m@)),
        Err(_) => None,
    }
}

/// The message of the error `str::parse::<u64>` gives for `s`, where it fails (see `u64_parse_error`).
pub fn u64_error_message(s: &Vec<char>) -> (r: Vec<char>)
    ensures
        r@ == u64_parse_error(s@),
{
    if s.len() == 0 {
        return chars_of("cannot parse integer from empty string");
    }
    let start: usize = if s[0] == '+' { 1 } else { 0 };
    assert(unsigned_body(s@) =~= s@.skip(start as int));
    let mut acc: u64 = 0;
    let mut i: usize = start;
    while i < s.len()
        invariant
            start <= i <= s.len(),
            u64_parse_error(s@) == u64_scan_error(s@.skip(start as int), 0),
            u64_scan_error(s@.skip(start as int), 0) == u64_scan_error(s@.skip(i as int), acc as nat),
        decreases s.len() - i,
    {
        let c = s[i];
        proof {
            assert(s@.skip(i as int)[0] == c);
            assert(s@.skip(i as int).skip(1) =~= s@.skip(i + 1));
        }
        if !('0' <= c && c <= '9') {
            return chars_of("invalid digit found in string");
        }
        let d: u64 = (c as u32 - 48u32) as u64;
        assert(d == digit_value(c));
        let next: u128 = acc as u128 * 10 + d as u128;
        if next > 18446744073709551615u128 {
            return chars_of("number too large to fit in target type");
        }
        acc = next as u64;
        i += 1;
    }
    assert(s@.skip(i as int).len() == 0);
    chars_of("invalid digit found in string")
}

/// Decoding panics: a hex string of even length whose first bad pair ends inside a character.
pub open spec fn decoding_panics(encoding: HeaderEncoding, raw: Seq<char>) -> bool {
    encoding == HeaderEncoding::Hex && hex_input(raw).len() % 2 == 0 && hex_decode(hex_input(raw))
        == HexOutcome::Panics
}

/// Collects coverage from a header such as `X-Coverage-Map`.
pub struct HeaderCoverageCollector {
    header_name: String,
    encoding: HeaderEncoding,
    map_size: usize,
}

impl HeaderCoverageCollector {
    pub closed spec fn header_name_spec(&self) -> Seq<char> {
        self.header_name@
    }

    pub closed spec fn encoding_spec(&self) -> HeaderEncoding {
        self.encoding
    }

    pub closed spec fn map_size_spec(&self) -> nat {
        self.map_size as nat
    }

    /// A collector for the named header; the name is matched without regard to case.
    pub fn new(header_name: &str, encoding: HeaderEncoding) -> (r: Self)
        ensures
            r.header_name_spec() == lowercase(header_name@),
            r.encoding_spec() == encoding,
            r.map_size_spec() == COVERAGE_MAP_SIZE,
    {
        let name = to_lowercase(&chars_of(header_name));
        HeaderCoverageCollector {
            header_name: string_of(&name),
            encoding,
            map_size: COVERAGE_MAP_SIZE,
        }
    }

    /// Base64 bitmaps in `x-coverage-map`.
    pub fn default_base64() -> (r: Self)
        ensures
            r.header_name_spec() == lowercase("x-coverage-map"@),
            r.encoding_spec() == HeaderEncoding::Base64,
            r.map_size_spec() == COVERAGE_MAP_SIZE,
    {
        Self::new("x-coverage-map", HeaderEncoding::Base64)
    }

    /// Hex bitmaps in `x-coverage-bitmap`.
    pub fn default_hex() -> (r: Self)
        ensures
            r.header_name_spec() == lowercase("x-coverage-bitmap"@),
            r.encoding_spec() == HeaderEncoding::Hex,
            r.map_size_spec() == COVERAGE_MAP_SIZE,
    {
        Self::new("x-coverage-bitmap", HeaderEncoding::Hex)
    }

    /// Whether decoding `raw` would slice a hex string inside a character.
    pub fn decode_would_panic(&self, raw: &str) -> (r: bool)
        ensures
            r == decoding_panics(self.encoding_spec(), raw@),
    {
        match self.encoding {
            HeaderEncoding::Hex => {
                let t = string_of(&trim_whitespace(&chars_of(raw)));
                let b = t.as_str().as_bytes();
                if b.len() % 2 != 0 {
                    false
                } else {
                    match hex_scan(b) {
                        HexOutcomeExec::Panics => true,
                        _ => false,
                    }
                }
            },
            _ => false,
        }
    }

    /// Whether collecting from these headers would panic: the configured header is there and
    /// decoding its value would panic.
    pub fn collect_would_panic(&self, response_headers: &StringMap) -> (r: bool)
        ensures
            r == !self.collect_requires(response_headers),
    {
        let name = chars_of(self.header_name.as_str());
        match response_headers.find_lowercase(&name) {
            Some(raw) => self.decode_would_panic(raw.as_str()),
            None => false,
        }
    }

    /// Decodes a header value into a bitmap of the map size.
    pub fn decode_bitmap(&self, raw: &str) -> (r: Result<Vec<u8>, CoverageError>)
        requires
            !decoding_panics(self.encoding_spec(), raw@),
        ensures
            r matches Ok(v) ==> raw_decoding(self.encoding_spec(), raw@) matches Some(d)
                && v@ == normalized(d, self.map_size_spec()),
            r is Err ==> raw_decoding(self.encoding_spec(), raw@) is None && r matches Err(
                CoverageError::Parse(_),
            ),
            parse_outcome(r) == Some(decode_outcome(self.encoding_spec(), raw@, self.map_size_spec())),
    {
        match self.encoding {
            HeaderEncoding::Base64 => self.decode_base64(raw),
            HeaderEncoding::Hex => self.decode_hex(raw),
            HeaderEncoding::HitCounts => self.decode_hit_counts(raw),
        }
    }

    fn decode_base64(&self, raw: &str) -> (r: Result<Vec<u8>, CoverageError>)
        ensures
            r matches Ok(v) ==> raw_decoding(HeaderEncoding::Base64, raw@) matches Some(d)
                && v@ == normalized(d, self.map_size_spec()),
            r is Err ==> raw_decoding(HeaderEncoding::Base64, raw@) is None && r matches Err(
                CoverageError::Parse(_),
            ),
            parse_outcome(r) == Some(decode_outcome(HeaderEncoding::Base64, raw@, self.map_size_spec())),
    {
        let t = string_of(&trim_whitespace(&chars_of(raw)));
        match base64_decode(t.as_str().as_bytes()) {
            Ok(decoded) => Ok(self.normalize_to_map_size(decoded)),
            Err(e) => {
                let mut msg = chars_of("Invalid base64 coverage data: ");
                append_chars(&mut msg, &base64_error_message(e));
                Err(CoverageError::Parse(string_of(&msg)))
            },
        }
    }

    fn decode_hex(&self, raw: &str) -> (r: Result<Vec<u8>, CoverageError>)
        requires
            !decoding_panics(HeaderEncoding::Hex, raw@),
        ensures
            r matches Ok(v) ==> raw_decoding(HeaderEncoding::Hex, raw@) matches Some(d)
                && v@ == normalized(d, self.map_size_spec()),
            r is Err ==> raw_decoding(HeaderEncoding::Hex, raw@) is None && r matches Err(
                CoverageError::Parse(_),
            ),
            parse_outcome(r) == Some(decode_outcome(HeaderEncoding::Hex, raw@, self.map_size_spec())),
    {
        let t = string_of(&trim_whitespace(&chars_of(raw)));
        let b = t.as_str().as_bytes();
        if b.len() % 2 != 0 {
            return Err(CoverageError::Parse(string_of(&chars_of("Hex string has odd length"))));
        }
        match hex_scan(b) {
            HexOutcomeExec::Bytes(bytes) => Ok(self.normalize_to_map_size(bytes)),
            _ => {
                Err(CoverageError::Parse(string_of(&chars_of("Invalid hex coverage data: invalid digit found in string"))))
            },
        }
    }

    fn decode_hit_counts(&self, raw: &str) -> (r: Result<Vec<u8>, CoverageError>)
        ensures
            r matches Ok(v) ==> raw_decoding(HeaderEncoding::HitCounts, raw@) matches Some(d)
                && v@ == normalized(d, self.map_size_spec()),
            r is Err ==> raw_decoding(HeaderEncoding::HitCounts, raw@) is None && r matches Err(
                CoverageError::Parse(_),
            ),
            parse_outcome(r) == Some(decode_outcome(HeaderEncoding::HitCounts, raw@, self.map_size_spec())),
    {
        let t = trim_whitespace(&chars_of(raw));
        let pieces = split_chars(&t, ',');
        let ghost ps = views(pieces@);
        let mut counts: Vec<u8> = Vec::new();
        let mut i: usize = pieces.len();
        // Walk the pieces from the back, so that the counts build up like `hit_counts` does.
        let mut acc: Vec<u8> = Vec::new();
        while i > 0
            invariant
                i <= pieces.len(),
                ps == views(pieces@),
                ps == split_on(trim_ws(raw@), ','),
                hit_counts(ps.skip(i as int)) == Some(acc@),
            decreases i,
        {
            let piece = &pieces[i - 1];
            proof {
                assert(ps.skip(i - 1).drop_first() =~= ps.skip(i as int));
                assert(ps.skip(i - 1)[0] == piece@);
            }
            if piece.len() > 0 {
                let tp = trim_whitespace(piece);
                match parse_u64(&tp) {
                    Some(v) => {
                        let x: u8 = if v > 255 { 255u8 } else { v as u8 };
                        let mut next: Vec<u8> = Vec::new();
                        next.push(x);
                        append_bytes(&mut next, &acc);
                        acc = next;
                    },
                    None => {
                        proof {
                            assert(ps[i - 1] == piece@);
                            lemma_hit_counts_fail(ps, (i - 1) as int);
                            assert(hit_counts(ps.skip(0)) is None);
                            assert(ps.skip(0) =~= ps);
                            assert(hit_counts(ps) is None);
                            assert(ps == split_on(trim_ws(raw@), ','));
                        }
                        let mut msg = chars_of("Invalid hit count data: ");
                        append_chars(&mut msg, &first_count_error(&pieces));
                        return Err(CoverageError::Parse(string_of(&msg)));
                    },
                }
            }
            i -= 1;
        }
        assert(ps.skip(0) =~= ps);
        let _ = counts;
        Ok(self.normalize_to_map_size(acc))
    }

    /// Cuts or zero-pads the bitmap to the map size.
    pub fn normalize_to_map_size(&self, data: Vec<u8>) -> (r: Vec<u8>)
        ensures
            r@ == normalized(data@, self.map_size_spec()),
    {
        let mut data = data;
        if data.len() >= self.map_size {
            data.truncate(self.map_size);
            data
        } else {
            let ghost d0 = data@;
            while data.len() < self.map_size
                invariant
                    d0.len() <= data.len() <= self.map_size,
                    data@ == d0 + Seq::new((data.len() - d0.len()) as nat, |i: int| 0u8),
                decreases self.map_size - data.len(),
            {
                data.push(0u8);
                assert(data@ =~= d0 + Seq::new((data.len() - d0.len()) as nat, |i: int| 0u8));
            }
            data
        }
    }
}

proof fn lemma_hit_counts_fail(ps: Seq<Seq<char>>, k: int)
    requires
        0 <= k < ps.len(),
        ps[k].len() > 0,
        hit_count(ps[k]) is None,
    ensures
        forall|j: int| 0 <= j <= k ==> #[trigger] hit_counts(ps.skip(j)) is None,
    decreases k,
{
    assert forall|j: int| 0 <= j <= k implies #[trigger] hit_counts(ps.skip(j)) is None by {
        lemma_hit_counts_fail_at(ps, j, k);
    }
}

proof fn lemma_hit_counts_fail_at(ps: Seq<Seq<char>>, j: int, k: int)
    requires
        0 <= j <= k < ps.len(),
        ps[k].len() > 0,
        hit_count(ps[k]) is None,
    ensures
        hit_counts(ps.skip(j)) is None,
    decreases k - j,
{
    let s = ps.skip(j);
    if j < k {
        assert(s.drop_first() =~= ps.skip(j + 1));
        lemma_hit_counts_fail_at(ps, j + 1, k);
    } else {
        assert(s[0] == ps[k]);
    }
}

/// The message of the first non-empty piece whose count does not parse (see `hit_counts_error`).
fn first_count_error(pieces: &Vec<Vec<char>>) -> (r: Vec<char>)
    ensures
        r@ == hit_counts_error(views(pieces@)),
{
    let ghost ps = views(pieces@);
    assert(ps.skip(0) =~= ps);
    let mut j: usize = 0;
    while j < pieces.len()
        invariant
            j <= pieces.len(),
            ps == views(pieces@),
            hit_counts_error(ps) == hit_counts_error(ps.skip(j as int)),
        decreases pieces.len() - j,
    {
        let piece = &pieces[j];
        proof {
            assert(ps.skip(j as int)[0] == piece@);
            assert(ps.skip(j as int).drop_first() =~= ps.skip(j + 1));
        }
        if piece.len() > 0 {
            let tp = trim_whitespace(piece);
            if parse_u64(&tp).is_none() {
                return u64_error_message(&tp);
            }
        }
        j += 1;
    }
    assert(ps.skip(j as int).len() == 0);
    Vec::new()
}

/// Appends `src` to `dst`.
pub fn append_bytes(dst: &mut Vec<u8>, src: &Vec<u8>)
    ensures
        final(dst)@ == old(dst)@ + src@,
{
    let ghost d0 = dst@;
    let mut i: usize = 0;
    while i < src.len()
        invariant
            i <= src.len(),
            dst@ == d0 + src@.take(i as int),
        decreases src.len() - i,
    {
        dst.push(src[i]);
        assert(src@.take(i as int + 1) =~= src@.take(i as int).push(src@[i as int]));
        i += 1;
    }
    assert(src@.take(src.len() as int) =~= src@);
}

enum HexOutcomeExec {
    Bytes(Vec<u8>),
    Invalid,
    Panics,
}

fn hex_digit_value(x: u8) -> (r: Option<u8>)
    ensures
        r matches Some(v) ==> is_hex_byte(x) && v == hex_byte_value(x),
        r is None ==> !is_hex_byte(x),
{
    if 48 <= x && x <= 57 {
        Some(x - 48)
    } else if 65 <= x && x <= 70 {
        Some(x - 55)
    } else if 97 <= x && x <= 102 {
        Some(x - 87)
    } else {
        None
    }
}

fn hex_pair_exec(b0: u8, b1: u8) -> (r: Option<u8>)
    ensures
        r == hex_pair(b0, b1),
{
    match (hex_digit_value(b0), hex_digit_value(b1)) {
        (Some(h), Some(l)) => Some(h * 16 + l),
        (None, Some(l)) => {
            if b0 == 43 {
                Some(l)
            } else {
                None
            }
        },
        _ => None,
    }
}

/// Decodes the pairs of an even-length byte string, front to back.
fn hex_scan(b: &[u8]) -> (r: HexOutcomeExec)
    requires
        b@.len() % 2 == 0,
    ensures
        match (r, hex_decode(b@)) {
            (HexOutcomeExec::Bytes(v), HexOutcome::Bytes(d)) => v@ == d,
            (HexOutcomeExec::Invalid, HexOutcome::Invalid) => true,
            (HexOutcomeExec::Panics, HexOutcome::Panics) => true,
            _ => false,
        },
{
    let mut out: Vec<u8> = Vec::new();
    let mut i: usize = 0;
    proof {
        assert(b@.skip(0) =~= b@);
        match hex_decode(b@) {
            HexOutcome::Bytes(r) => {
                assert(out@ + r =~= r);
            },
            _ => {},
        }
    }
    while i < b.len()
        invariant
            i <= b@.len(),
            i % 2 == 0,
            b@.len() % 2 == 0,
            hex_decode(b@) == prefix_then(out@, hex_decode(b@.skip(i as int))),
        decreases b@.len() - i,
    {
        let ghost t = b@.skip(i as int);
        assert(t[0] == b@[i as int] && t[1] == b@[i + 1]);
        match hex_pair_exec(b[i], b[i + 1]) {
            Some(x) => {
                proof {
                    assert(t.skip(2) =~= b@.skip(i + 2));
                    lemma_prefix_then_push(out@, x, hex_decode(b@.skip(i + 2)));
                }
                out.push(x);
            },
            None => {
                if i + 2 < b.len() && 128 <= b[i + 2] && b[i + 2] < 192 {
                    assert(t[2] == b@[i + 2]);
                    return HexOutcomeExec::Panics;
                } else {
                    assert(t.len() > 2 ==> t[2] == b@[i + 2]);
                    return HexOutcomeExec::Invalid;
                }
            },
        }
        i += 2;
    }
    proof {
        assert(b@.skip(i as int).len() == 0);
        assert(out@ + Seq::<u8>::empty() =~= out@);
    }
    HexOutcomeExec::Bytes(out)
}

/// The outcome of decoding `prefix` followed by bytes whose outcome is `rest`.
pub open spec fn prefix_then(prefix: Seq<u8>, rest: HexOutcome) -> HexOutcome {
    match rest {
        HexOutcome::Bytes(r) => HexOutcome::Bytes(prefix + r),
        o => o,
    }
}

proof fn lemma_prefix_then_push(p: Seq<u8>, x: u8, rest: HexOutcome)
    ensures
        prefix_then(p, prefix_then(seq![x], rest)) == prefix_then(p.push(x), rest),
{
    match rest {
        HexOutcome::Bytes(r) => {
            assert(p + (seq![x] + r) =~= p.push(x) + r);
        },
        _ => {},
    }
}

impl CoverageCollector for HeaderCoverageCollector {
    /// The decoding of the first header whose lower-cased name is the collector's, or a zero
    /// bitmap where there is none (see `collect_outcome`).
    open spec fn collected(&self, response_headers: &StringMap, r: Result<Vec<u8>, CoverageError>) -> bool {
        parse_outcome(r) == Some(
            collect_outcome(self.header_name_spec(), self.encoding_spec(), response_headers@, self.map_size_spec()),
        )
    }

    open spec fn collect_requires(&self, response_headers: &StringMap) -> bool {
        match first_ci_match(response_headers@, self.header_name_spec()) {
            Some(i) => !decoding_panics(self.encoding_spec(), response_headers@[i].1),
            None => true,
        }
    }

    /// Decodes the bitmap in the configured header; all zeros where the header is missing.
    fn collect_coverage(&mut self, response_headers: &StringMap) -> (r: Result<Vec<u8>, CoverageError>)
        ensures
            *final(self) == *old(self),
            match first_ci_match(response_headers@, old(self).header_name_spec()) {
                Some(i) => {
                    let raw = response_headers@[i].1;
                    &&& r matches Ok(v) ==> raw_decoding(old(self).encoding_spec(), raw) matches Some(d)
                        && v@ == normalized(d, old(self).map_size_spec())
                    &&& r is Err ==> raw_decoding(old(self).encoding_spec(), raw) is None
                    &&& parse_outcome(r) == Some(decode_outcome(old(self).encoding_spec(), raw, old(self).map_size_spec()))
                },
                None => r matches Ok(v) && v@ == Seq::new(old(self).map_size_spec(), |k: int| 0u8),
            },
            parse_outcome(r) == Some(
                collect_outcome(old(self).header_name_spec(), old(self).encoding_spec(), response_headers@, old(self).map_size_spec()),
            ),
    {
        let name = chars_of(self.header_name.as_str());
        match response_headers.find_lowercase(&name) {
            Some(raw) => self.decode_bitmap(raw.as_str()),
            None => Ok(zeros(self.map_size)),
        }
    }

    fn reset(&mut self) -> (r: Result<(), CoverageError>)
        ensures
            *final(self) == *old(self),
            r is Ok,
    {
        Ok(())
    }

    fn map_size(&self) -> (n: usize)
        ensures
            n == self.map_size_spec(),
    {
        self.map_size
    }

    fn name(&self) -> (r: &str)
        ensures
            r@ == "header"@,
    {
        "header"
    }
}

/// An ASCII upper-case letter's byte turned into its lower-case letter's byte; other bytes kept.
pub open spec fn lower_byte(x: u8) -> u8 {
    if 65 <= x <= 90 {
        (x + 32) as u8
    } else {
        x
    }
}

/// A byte that stands for a digit in a base-16 numeral written with lower-case letters.
pub open spec fn lower_hex_digit(x: u8) -> bool {
    (48 <= x <= 57) || (97 <= x <= 102)
}

/// Hex pairs read the same whatever the case of their letters.
pub proof fn law_hex_pair_ignores_case(b0: u8, b1: u8)
    ensures
        hex_pair(b0, b1) == hex_pair(lower_byte(b0), lower_byte(b1)),
{
}

/// The digits `0`-`9`, `a`-`f` stand for sixteen values below 16, in the order of the
/// digits; with `0` in front a digit reads as its own value.
pub proof fn law_hex_digits_in_order(x: u8, y: u8)
    requires
        lower_hex_digit(x),
        lower_hex_digit(y),
        x < y,
    ensures
        hex_pair(48, x) matches Some(vx) && hex_pair(48, y) matches Some(vy) && vx < vy && vy < 16,
{
}

/// A pair of digits reads as sixteen times the first digit's value plus the second's.
pub proof fn law_hex_pair_is_base_16(b0: u8, b1: u8)
    requires
        lower_hex_digit(lower_byte(b0)),
        lower_hex_digit(lower_byte(b1)),
    ensures
        hex_pair(48, b0) matches Some(v0) && hex_pair(48, b1) matches Some(v1) && hex_pair(b0, b1) == Some(
            (16 * v0 + v1) as u8,
        ),
{
}

/// Decoding hex bytes gives the same whatever the case of their letters.
pub proof fn law_hex_decode_ignores_case(b: Seq<u8>)
    ensures
        hex_decode(Seq::new(b.len(), |i: int| lower_byte(b[i]))) == hex_decode(b),
    decreases b.len(),
{
    let l = Seq::new(b.len(), |i: int| lower_byte(b[i]));
    if b.len() >= 2 {
        law_hex_pair_ignores_case(b[0], b[1]);
        let t = b.skip(2);
        assert(l.skip(2) =~= Seq::new(t.len(), |i: int| lower_byte(t[i])));
        law_hex_decode_ignores_case(t);
        if b.len() > 2 {
            assert(is_continuation(l[2]) == is_continuation(b[2]));
        }
    }
}

} // verus!
