//! Character-level string utilities with specifications over `Seq<char>`.
use vstd::prelude::*;

verus! {

broadcast use vstd::string::group_string_axioms;

/// Appends one character to a `String` through `String::push`.
#[verifier::external_body]
pub(crate) fn push_char(s: &mut String, c: char)
    ensures
        final(s)@ == old(s)@.push(c),
{
    s.push(c);
}

/// The characters of a string slice, in order.
pub fn chars_of(s: &str) -> (r: Vec<char>)
    ensures
        r@ == s@,
{
    let mut v: Vec<char> = Vec::new();
    for c in it: s.chars()
        invariant
            v@ == it.seq().take(it.index()),
            it.seq() == s@,
    {
        v.push(c);
    }
    v
}

/// A `String` holding exactly the given characters.
pub fn string_of(v: &Vec<char>) -> (r: String)
    ensures
        r@ == v@,
{
    let mut s = String::new();
    let mut i: usize = 0;
    while i < v.len()
        invariant
            i <= v.len(),
            s@ == v@.take(i as int),
        decreases v.len() - i,
    {
        push_char(&mut s, v[i]);
        assert(v@.take(i as int + 1) =~= v@.take(i as int).push(v@[i as int]));
        i += 1;
    }
    assert(v@.take(v.len() as int) =~= v@);
    s
}


// ---------------------------------------------------------------------------
// Decimal numbers
// ---------------------------------------------------------------------------

pub open spec fn is_digit(c: char) -> bool {
    '0' <= c && c <= '9'
}

pub open spec fn digit_value(c: char) -> nat {
    (c as int - '0' as int) as nat
}

pub open spec fn digit_char(d: nat) -> char {
    ((48 + d) as u8) as char
}

/// The shortest decimal spelling of `n`, as `{}` formats an unsigned integer.
pub open spec fn decimal(n: nat) -> Seq<char>
    decreases n,
{
    if n < 10 {
        seq![digit_char(n)]
    } else {
        decimal(n / 10).push(digit_char(n % 10))
    }
}

/// The decimal spelling of a signed integer, as `{}` formats it.
pub open spec fn signed_decimal(n: int) -> Seq<char> {
    if n < 0 {
        seq!['-'] + decimal((-n) as nat)
    } else {
        decimal(n as nat)
    }
}

pub open spec fn all_digits(s: Seq<char>) -> bool {
    forall|i: int| 0 <= i < s.len() ==> is_digit(#[trigger] s[i])
}

/// The value of a run of decimal digits.
pub open spec fn digits_value(s: Seq<char>) -> nat
    decreases s.len(),
{
    if s.len() == 0 {
        0
    } else {
        digits_value(s.drop_last()) * 10 + digit_value(s.last())
    }
}

/// The digits of an unsigned number as `str::parse` reads it: one leading `+` may stand first.
pub open spec fn unsigned_body(s: Seq<char>) -> Seq<char> {
    if s.len() > 0 && s[0] == '+' {
        s.skip(1)
    } else {
        s
    }
}

/// The value `str::parse` gives an unsigned integer type without a bound:
/// an optional `+`, then at least one decimal digit and nothing else.
pub open spec fn parse_unsigned(s: Seq<char>) -> Option<nat> {
    let b = unsigned_body(s);
    if b.len() > 0 && all_digits(b) {
        Some(digits_value(b))
    } else {
        None
    }
}

/// `str::parse::<u64>`.
pub open spec fn parse_u64_spec(s: Seq<char>) -> Option<u64> {
    match parse_unsigned(s) {
        Some(v) => if v <= u64::MAX { Some(v as u64) } else { None },
        None => None,
    }
}

/// `str::parse::<usize>`.
pub open spec fn parse_usize_spec(s: Seq<char>) -> Option<usize> {
    match parse_unsigned(s) {
        Some(v) => if v <= usize::MAX { Some(v as usize) } else { None },
        None => None,
    }
}

/// The value `str::parse` gives a signed integer type without a bound:
/// an optional sign, then at least one decimal digit and nothing else.
pub open spec fn parse_signed(s: Seq<char>) -> Option<int> {
    if s.len() > 0 && s[0] == '-' {
        let b = s.skip(1);
        if b.len() > 0 && all_digits(b) {
            Some(-(digits_value(b) as int))
        } else {
            None
        }
    } else {
        match parse_unsigned(s) {
            Some(v) => Some(v as int),
            None => None,
        }
    }
}

/// `str::parse::<i64>`.
pub open spec fn parse_i64_spec(s: Seq<char>) -> Option<i64> {
    match parse_signed(s) {
        Some(v) => if i64::MIN <= v && v <= i64::MAX { Some(v as i64) } else { None },
        None => None,
    }
}

/// A decimal spelling is a non-empty run of digits whose value is the number.
pub proof fn lemma_decimal_digits(n: nat)
    ensures
        all_digits(decimal(n)),
        digits_value(decimal(n)) == n,
        decimal(n).len() > 0,
    decreases n,
{
    let c = digit_char(n % 10);
    assert(digit_value(c) == n % 10 && is_digit(c)) by {
        assert(((48 + n % 10) as u8) as char as int == 48 + n % 10);
    }
    if n >= 10 {
        lemma_decimal_digits(n / 10);
        let d = decimal(n / 10);
        assert(decimal(n).drop_last() =~= d);
        assert(decimal(n).last() == c);
        assert(digits_value(decimal(n)) == digits_value(d) * 10 + digit_value(c));
        assert((n / 10) * 10 + n % 10 == n);
        assert(all_digits(decimal(n))) by {
            assert forall|i: int| 0 <= i < decimal(n).len() implies is_digit(#[trigger] decimal(n)[i]) by {
                if i < d.len() {
                    assert(decimal(n)[i] == d[i]);
                }
            }
        }
    } else {
        assert(decimal(n).drop_last() =~= Seq::<char>::empty());
        assert(decimal(n).last() == c);
        assert(digits_value(decimal(n)) == digits_value(Seq::<char>::empty()) * 10 + digit_value(c));
    }
}

proof fn lemma_digits_value_step(s: Seq<char>, i: int)
    requires
        0 <= i < s.len(),
    ensures
        digits_value(s.take(i + 1)) == digits_value(s.take(i)) * 10 + digit_value(s[i]),
{
    assert(s.take(i + 1).drop_last() =~= s.take(i));
}

fn digit_of(d: u64) -> (c: char)
    requires
        d < 10,
    ensures
        c == digit_char(d as nat),
{
    let b: u8 = 48u8 + (d as u8);
    b as char
}

/// Decimal spelling of an unsigned integer.
pub fn u64_decimal(n: u64) -> (r: Vec<char>)
    ensures
        r@ == decimal(n as nat),
    decreases n,
{
    let c = digit_of(n % 10);
    if n < 10 {
        let mut v: Vec<char> = Vec::new();
        v.push(c);
        assert(v@ =~= seq![digit_char(n as nat)]);
        v
    } else {
        let mut v = u64_decimal(n / 10);
        v.push(c);
        v
    }
}

/// Decimal spelling of a signed integer.
pub fn i64_decimal(n: i64) -> (r: Vec<char>)
    ensures
        r@ == signed_decimal(n as int),
{
    if n < 0 {
        let mag: u64 = if n == i64::MIN {
            9223372036854775808u64
        } else {
            (-n) as u64
        };
        let digits = u64_decimal(mag);
        let mut v: Vec<char> = Vec::new();
        v.push('-');
        append_chars(&mut v, &digits);
        assert(v@ =~= seq!['-'] + decimal((-(n as int)) as nat));
        v
    } else {
        u64_decimal(n as u64)
    }
}

/// Reads the digits `s[start..]`: `None` if that run is empty or holds a non-digit,
/// `Some(None)` if it is all digits but its value exceeds `u64::MAX`.
fn read_digits(s: &Vec<char>, start: usize) -> (r: Option<Option<u64>>)
    requires
        start <= s.len(),
    ensures
        ({
            let b = s@.skip(start as int);
            match r {
                None => !(b.len() > 0 && all_digits(b)),
                Some(None) => b.len() > 0 && all_digits(b) && digits_value(b) > u64::MAX,
                Some(Some(v)) => b.len() > 0 && all_digits(b) && digits_value(b) == v,
            }
        }),
{
    let ghost b = s@.skip(start as int);
    if start == s.len() {
        return None;
    }
    let mut acc: u64 = 0;
    let mut over = false;
    let mut i: usize = start;
    while i < s.len()
        invariant
            start <= i <= s.len(),
            b == s@.skip(start as int),
            all_digits(b.take(i - start)),
            !over ==> acc == digits_value(b.take(i - start)),
            over ==> digits_value(b.take(i - start)) > u64::MAX,
        decreases s.len() - i,
    {
        let c = s[i];
        if !('0' <= c && c <= '9') {
            assert(b[i - start] == c);
            return None;
        }
        proof {
            lemma_digits_value_step(b, i - start);
            assert(b.take(i - start + 1) =~= b.take(i - start).push(c));
        }
        let d: u64 = (c as u32 - 48u32) as u64;
        if !over {
            if acc > 1844674407370955161u64 || (acc == 1844674407370955161u64 && d > 5) {
                over = true;
            } else {
                acc = acc * 10 + d;
            }
        }
        i += 1;
    }
    assert(b.take(s.len() - start) =~= b);
    if over {
        Some(None)
    } else {
        Some(Some(acc))
    }
}

/// `str::parse::<u64>` on the given characters.
pub fn parse_u64(s: &Vec<char>) -> (r: Option<u64>)
    ensures
        r == parse_u64_spec(s@),
{
    let start: usize = if s.len() > 0 && s[0] == '+' { 1 } else { 0 };
    assert(unsigned_body(s@) =~= s@.skip(start as int));
    match read_digits(s, start) {
        Some(Some(v)) => Some(v),
        _ => None,
    }
}

/// `str::parse::<usize>` on the given characters.
pub fn parse_usize(s: &Vec<char>) -> (r: Option<usize>)
    ensures
        r == parse_usize_spec(s@),
{
    match parse_u64(s) {
        Some(v) => {
            if v <= usize::MAX as u64 {
                Some(v as usize)
            } else {
                None
            }
        },
        None => {
            None
        },
    }
}

/// `str::parse::<i64>` on the given characters.
pub fn parse_i64(s: &Vec<char>) -> (r: Option<i64>)
    ensures
        r == parse_i64_spec(s@),
{
    if s.len() > 0 && s[0] == '-' {
        match read_digits(s, 1) {
            Some(Some(v)) => {
                if v <= 9223372036854775808u64 {
                    if v == 9223372036854775808u64 {
                        Some(i64::MIN)
                    } else {
                        Some(-(v as i64))
                    }
                } else {
                    None
                }
            },
            _ => None,
        }
    } else {
        let start: usize = if s.len() > 0 && s[0] == '+' { 1 } else { 0 };
        assert(unsigned_body(s@) =~= s@.skip(start as int));
        match read_digits(s, start) {
            Some(Some(v)) => {
                if v <= 9223372036854775807u64 {
                    Some(v as i64)
                } else {
                    None
                }
            },
            _ => None,
        }
    }
}

// ---------------------------------------------------------------------------
// Sequence helpers
// ---------------------------------------------------------------------------

/// Appends `src` to `dst`.
pub fn append_chars(dst: &mut Vec<char>, src: &Vec<char>)
    ensures
        final(dst)@ == old(dst)@ + src@,
{
    let ghost d0 = dst@;
    let mut i: usize = 0;
    while i < src.len()
        invariant
            i <= src.len(),
            dst@ == d0 + src@.take(i as int),
        decreases src.len() - i,
    {
        dst.push(src[i]);
        assert(src@.take(i as int + 1) =~= src@.take(i as int).push(src@[i as int]));
        i += 1;
    }
    assert(src@.take(src.len() as int) =~= src@);
}

/// Appends the characters of `src` to `dst`.
pub fn append_str(dst: &mut Vec<char>, src: &str)
    ensures
        final(dst)@ == old(dst)@ + src@,
{
    let cs = chars_of(src);
    append_chars(dst, &cs);
}

/// Whether two character sequences are equal.
pub fn chars_eq(a: &Vec<char>, b: &Vec<char>) -> (r: bool)
    ensures
        r == (a@ == b@),
{
    if a.len() != b.len() {
        return false;
    }
    let mut i: usize = 0;
    while i < a.len()
        invariant
            i <= a.len(),
            a.len() == b.len(),
            forall|j: int| 0 <= j < i ==> a@[j] == b@[j],
        decreases a.len() - i,
    {
        if a[i] != b[i] {
            return false;
        }
        i += 1;
    }
    assert(a@ =~= b@);
    true
}

pub open spec fn match_at(s: Seq<char>, p: Seq<char>, i: int) -> bool {
    0 <= i && i + p.len() <= s.len() && s.subrange(i, i + p.len()) == p
}

pub open spec fn starts_with(s: Seq<char>, p: Seq<char>) -> bool {
    match_at(s, p, 0)
}

pub open spec fn ends_with(s: Seq<char>, p: Seq<char>) -> bool {
    p.len() <= s.len() && match_at(s, p, s.len() - p.len())
}

pub open spec fn contains(s: Seq<char>, p: Seq<char>) -> bool {
    exists|i: int| match_at(s, p, i)
}

/// Whether `p` occurs in `s` at index `i`.
pub fn matches_at(s: &Vec<char>, p: &Vec<char>, i: usize) -> (r: bool)
    ensures
        r == match_at(s@, p@, i as int),
{
    if i > s.len() || p.len() > s.len() - i {
        return false;
    }
    let mut j: usize = 0;
    while j < p.len()
        invariant
            j <= p.len(),
            i + p.len() <= s.len(),
            forall|k: int| 0 <= k < j ==> s@[i + k] == p@[k],
        decreases p.len() - j,
    {
        if s[i + j] != p[j] {
            assert(s@.subrange(i as int, i + p.len())[j as int] != p@[j as int]);
            return false;
        }
        j += 1;
    }
    assert(s@.subrange(i as int, i + p.len()) =~= p@);
    true
}

pub fn has_prefix(s: &Vec<char>, p: &Vec<char>) -> (r: bool)
    ensures
        r == starts_with(s@, p@),
{
    matches_at(s, p, 0)
}

pub fn has_suffix(s: &Vec<char>, p: &Vec<char>) -> (r: bool)
    ensures
        r == ends_with(s@, p@),
{
    if p.len() > s.len() {
        return false;
    }
    matches_at(s, p, s.len() - p.len())
}

/// The first index at which `p` occurs in `s`.
pub open spec fn first_match(s: Seq<char>, p: Seq<char>) -> Option<int> {
    if contains(s, p) {
        Some(choose|i: int| match_at(s, p, i) && forall|j: int| 0 <= j < i ==> !match_at(s, p, j))
    } else {
        None
    }
}

proof fn lemma_first_match(s: Seq<char>, p: Seq<char>, i: int)
    requires
        match_at(s, p, i),
        forall|j: int| 0 <= j < i ==> !match_at(s, p, j),
    ensures
        first_match(s, p) == Some(i),
{
    let k = choose|k: int| match_at(s, p, k) && forall|j: int| 0 <= j < k ==> !match_at(s, p, j);
    if k < i {
        assert(!match_at(s, p, k));
    }
    if i < k {
        assert(!match_at(s, p, i));
    }
}

/// The first index at which `p` occurs in `s`, if any.
pub fn find(s: &Vec<char>, p: &Vec<char>) -> (r: Option<usize>)
    ensures
        r matches Some(i) ==> first_match(s@, p@) == Some(i as int) && match_at(s@, p@, i as int),
        r is None ==> first_match(s@, p@) is None,
{
    if p.len() > s.len() {
        assert(!contains(s@, p@));
        return None;
    }
    let limit = s.len() - p.len();
    let mut i: usize = 0;
    loop
        invariant
            p.len() <= s.len(),
            limit == s.len() - p.len(),
            i <= limit,
            forall|j: int| 0 <= j < i ==> !match_at(s@, p@, j),
        decreases limit - i,
    {
        if matches_at(s, p, i) {
            proof {
                lemma_first_match(s@, p@, i as int);
            }
            return Some(i);
        }
        if i == limit {
            assert(!contains(s@, p@));
            return None;
        }
        i += 1;
    }
}

pub fn contains_chars(s: &Vec<char>, p: &Vec<char>) -> (r: bool)
    ensures
        r == contains(s@, p@),
{
    match find(s, p) {
        Some(_) => true,
        None => false,
    }
}

/// The first index holding `c`.
pub open spec fn first_index_of(s: Seq<char>, c: char) -> Option<int> {
    if exists|i: int| 0 <= i < s.len() && s[i] == c {
        Some(choose|i: int| 0 <= i < s.len() && s[i] == c && forall|j: int| 0 <= j < i ==> s[j] != c)
    } else {
        None
    }
}

/// The last index holding `c`.
pub open spec fn last_index_of(s: Seq<char>, c: char) -> Option<int> {
    if exists|i: int| 0 <= i < s.len() && s[i] == c {
        Some(choose|i: int| 0 <= i < s.len() && s[i] == c && forall|j: int| i < j < s.len() ==> s[j] != c)
    } else {
        None
    }
}

pub fn find_char(s: &Vec<char>, c: char) -> (r: Option<usize>)
    ensures
        r matches Some(i) ==> first_index_of(s@, c) == Some(i as int) && i < s.len() && s@[i as int] == c,
        r is None ==> first_index_of(s@, c) is None,
{
    let mut i: usize = 0;
    while i < s.len()
        invariant
            i <= s.len(),
            forall|j: int| 0 <= j < i ==> s@[j] != c,
        decreases s.len() - i,
    {
        if s[i] == c {
            proof {
                let k = choose|k: int| 0 <= k < s@.len() && s@[k] == c && forall|j: int| 0 <= j < k ==> s@[j] != c;
                if k < i {
                    assert(s@[k] != c);
                }
                if (i as int) < k {
                    assert(s@[i as int] != c);
                }
            }
            return Some(i);
        }
        i += 1;
    }
    None
}

pub fn rfind_char(s: &Vec<char>, c: char) -> (r: Option<usize>)
    ensures
        r matches Some(i) ==> last_index_of(s@, c) == Some(i as int) && i < s.len() && s@[i as int] == c,
        r is None ==> last_index_of(s@, c) is None,
{
    let mut i: usize = s.len();
    while i > 0
        invariant
            i <= s.len(),
            forall|j: int| i <= j < s.len() ==> s@[j] != c,
        decreases i,
    {
        if s[i - 1] == c {
            proof {
                let k = choose|k: int| 0 <= k < s@.len() && s@[k] == c && forall|j: int| k < j < s@.len() ==> s@[j] != c;
                if k < i - 1 {
                    assert(s@[i - 1] != c);
                }
                if (i - 1) < k {
                    assert(s@[k] != c);
                }
            }
            return Some(i - 1);
        }
        i -= 1;
    }
    None
}

pub fn contains_char(s: &Vec<char>, c: char) -> (r: bool)
    ensures
        r == s@.contains(c),
{
    match find_char(s, c) {
        Some(i) => {
            assert(s@[i as int] == c);
            true
        },
        None => false,
    }
}

/// A copy of `s[from..to]`.
pub fn slice_chars(s: &Vec<char>, from: usize, to: usize) -> (r: Vec<char>)
    requires
        from <= to <= s.len(),
    ensures
        r@ == s@.subrange(from as int, to as int),
{
    let mut v: Vec<char> = Vec::new();
    let mut i: usize = from;
    while i < to
        invariant
            from <= i <= to <= s.len(),
            v@ == s@.subrange(from as int, i as int),
        decreases to - i,
    {
        v.push(s[i]);
        assert(s@.subrange(from as int, i + 1) =~= s@.subrange(from as int, i as int).push(s@[i as int]));
        i += 1;
    }
    v
}


// ---------------------------------------------------------------------------
// Replacing
// ---------------------------------------------------------------------------

/// `str::replace`: every non-overlapping occurrence of `p`, left to right, replaced by `r`.
pub open spec fn replace_all(s: Seq<char>, p: Seq<char>, r: Seq<char>) -> Seq<char>
    decreases s.len(),
{
    if p.len() == 0 || s.len() < p.len() {
        s
    } else if s.take(p.len() as int) == p {
        r + replace_all(s.skip(p.len() as int), p, r)
    } else {
        seq![s[0]] + replace_all(s.skip(1), p, r)
    }
}

/// `str::replacen(p, r, 1)`: the first occurrence of `p` replaced by `r`.
pub open spec fn replace_first(s: Seq<char>, p: Seq<char>, r: Seq<char>) -> Seq<char> {
    match first_match(s, p) {
        Some(i) => s.take(i) + r + s.skip(i + p.len()),
        None => s,
    }
}

/// Every occurrence of `p` in `s` replaced by `r` (`p` must not be empty).
pub fn replace_chars(s: &Vec<char>, p: &Vec<char>, r: &Vec<char>) -> (out: Vec<char>)
    requires
        p.len() > 0,
    ensures
        out@ == replace_all(s@, p@, r@),
{
    let mut out: Vec<char> = Vec::new();
    let mut i: usize = 0;
    assert(s@.skip(0) =~= s@);
    assert(out@ + replace_all(s@, p@, r@) =~= replace_all(s@, p@, r@));
    while i < s.len()
        invariant
            p.len() > 0,
            i <= s.len(),
            out@ + replace_all(s@.skip(i as int), p@, r@) == replace_all(s@, p@, r@),
        decreases s.len() - i,
    {
        let ghost t = s@.skip(i as int);
        if s.len() - i < p.len() {
            assert(replace_all(t, p@, r@) == t);
            let rest = slice_chars(s, i, s.len());
            assert(rest@ =~= t);
            append_chars(&mut out, &rest);
            assert(s@.skip(s.len() as int) =~= Seq::<char>::empty());
            assert(replace_all(s@.skip(s.len() as int), p@, r@) =~= Seq::<char>::empty());
            assert(out@ + Seq::<char>::empty() =~= out@);
            i = s.len();
        } else if matches_at(s, p, i) {
            assert(t.take(p.len() as int) =~= s@.subrange(i as int, i + p.len()));
            assert(t.skip(p.len() as int) =~= s@.skip(i + p.len()));
            append_chars(&mut out, r);
            assert(out@ + replace_all(s@.skip(i + p.len()), p@, r@) =~= old_out_plus(out@, r@, replace_all(s@.skip(i + p.len()), p@, r@)));
            i = i + p.len();
        } else {
            assert(t.take(p.len() as int) =~= s@.subrange(i as int, i + p.len()));
            assert(t.skip(1) =~= s@.skip(i + 1));
            out.push(s[i]);
            i = i + 1;
        }
    }
    assert(s@.skip(i as int) =~= Seq::<char>::empty());
    assert(out@ + Seq::<char>::empty() =~= out@);
    out
}

spec fn old_out_plus(a: Seq<char>, b: Seq<char>, c: Seq<char>) -> Seq<char> {
    a + c
}

/// The first occurrence of `p` in `s` replaced by `r`.
pub fn replace_first_chars(s: &Vec<char>, p: &Vec<char>, r: &Vec<char>) -> (out: Vec<char>)
    ensures
        out@ == replace_first(s@, p@, r@),
{
    match find(s, p) {
        Some(i) => {
            let mut out = slice_chars(s, 0, i);
            append_chars(&mut out, r);
            let tail = slice_chars(s, i + p.len(), s.len());
            append_chars(&mut out, &tail);
            assert(out@ =~= s@.take(i as int) + r@ + s@.skip(i + p.len()));
            out
        },
        None => slice_chars(s, 0, s.len()),
    }
}

// ---------------------------------------------------------------------------
// Splitting
// ---------------------------------------------------------------------------

/// `str::split(c)`: the pieces between occurrences of `c`, empty pieces included.
pub open spec fn split_on(s: Seq<char>, c: char) -> Seq<Seq<char>>
    decreases s.len(),
{
    if s.len() == 0 {
        seq![Seq::<char>::empty()]
    } else {
        let rest = split_on(s.drop_first(), c);
        if s[0] == c {
            seq![Seq::<char>::empty()] + rest
        } else {
            rest.update(0, seq![s[0]] + rest[0])
        }
    }
}

pub open spec fn views(v: Seq<Vec<char>>) -> Seq<Seq<char>> {
    v.map_values(|x: Vec<char>| x@)
}

proof fn lemma_split_nonempty(s: Seq<char>, c: char)
    ensures
        split_on(s, c).len() >= 1,
    decreases s.len(),
{
    if s.len() > 0 {
        lemma_split_nonempty(s.drop_first(), c);
    }
}

/// The pieces of `s` between occurrences of `c`.
pub fn split_chars(s: &Vec<char>, c: char) -> (r: Vec<Vec<char>>)
    ensures
        views(r@) == split_on(s@, c),
{
    let mut pieces: Vec<Vec<char>> = Vec::new();
    let mut cur: Vec<char> = Vec::new();
    let mut i: usize = 0;
    proof {
        lemma_split_nonempty(s@, c);
        assert(s@.skip(0) =~= s@);
        assert(views(pieces@) =~= Seq::<Seq<char>>::empty());
        assert(cur@ + split_on(s@, c)[0] =~= split_on(s@, c)[0]);
        assert(split_on(s@, c) =~= seq![split_on(s@, c)[0]] + split_on(s@, c).skip(1));
        assert(split_on(s@, c) =~= views(pieces@) + seq![cur@ + split_on(s@.skip(0), c)[0]]
                + split_on(s@.skip(0), c).skip(1));
    }
    while i < s.len()
        invariant
            i <= s.len(),
            split_on(s@, c) == views(pieces@) + seq![cur@ + split_on(s@.skip(i as int), c)[0]]
                + split_on(s@.skip(i as int), c).skip(1),
        decreases s.len() - i,
    {
        let ghost t = s@.skip(i as int);
        let ghost t2 = s@.skip(i + 1);
        proof {
            assert(t.drop_first() =~= t2);
            lemma_split_nonempty(t2, c);
        }
        let ch = s[i];
        if ch == c {
            let ghost old_pieces = pieces@;
            let ghost cur_v = cur@;
            pieces.push(cur);
            cur = Vec::new();
            proof {
                assert(views(pieces@) =~= views(old_pieces).push(cur_v));
                assert(split_on(t, c) =~= seq![Seq::<char>::empty()] + split_on(t2, c));
                assert(split_on(t, c).skip(1) =~= split_on(t2, c));
                assert(split_on(t2, c) =~= seq![split_on(t2, c)[0]] + split_on(t2, c).skip(1));
                assert(cur@ + split_on(t2, c)[0] =~= split_on(t2, c)[0]);
            }
        } else {
            let ghost old_cur = cur@;
            cur.push(ch);
            proof {
                assert(split_on(t, c) =~= split_on(t2, c).update(0, seq![ch] + split_on(t2, c)[0]));
                assert(split_on(t, c).skip(1) =~= split_on(t2, c).skip(1));
                assert(old_cur + split_on(t, c)[0] =~= cur@ + split_on(t2, c)[0]);
            }
        }
        i += 1;
    }
    proof {
        assert(s@.skip(i as int) =~= Seq::<char>::empty());
        assert(split_on(Seq::<char>::empty(), c).skip(1) =~= Seq::<Seq<char>>::empty());
        assert(cur@ + Seq::<char>::empty() =~= cur@);
    }
    let ghost old_pieces = pieces@;
    let ghost cur_v = cur@;
    pieces.push(cur);
    assert(views(pieces@) =~= views(old_pieces).push(cur_v));
    assert(views(pieces@) =~= views(old_pieces) + seq![cur_v]);
    pieces
}

// ---------------------------------------------------------------------------
// Trimming
// ---------------------------------------------------------------------------

/// Unicode `White_Space`, the property `char::is_whitespace` tests.
pub open spec fn is_ws(c: char) -> bool {
    ||| ('\u{9}' <= c && c <= '\u{d}')
    ||| c == ' '
    ||| c == '\u{85}'
    ||| c == '\u{a0}'
    ||| c == '\u{1680}'
    ||| ('\u{2000}' <= c && c <= '\u{200a}')
    ||| c == '\u{2028}'
    ||| c == '\u{2029}'
    ||| c == '\u{202f}'
    ||| c == '\u{205f}'
    ||| c == '\u{3000}'
}

pub fn is_whitespace(c: char) -> (r: bool)
    ensures
        r == is_ws(c),
{
    ('\u{9}' <= c && c <= '\u{d}') || c == ' ' || c == '\u{85}' || c == '\u{a0}' || c == '\u{1680}'
        || ('\u{2000}' <= c && c <= '\u{200a}') || c == '\u{2028}' || c == '\u{2029}' || c
        == '\u{202f}' || c == '\u{205f}' || c == '\u{3000}'
}

/// Leading characters satisfying `f` removed.
pub open spec fn trim_start_by(s: Seq<char>, f: spec_fn(char) -> bool) -> Seq<char>
    decreases s.len(),
{
    if s.len() > 0 && f(s[0]) {
        trim_start_by(s.drop_first(), f)
    } else {
        s
    }
}

/// Trailing characters satisfying `f` removed.
pub open spec fn trim_end_by(s: Seq<char>, f: spec_fn(char) -> bool) -> Seq<char>
    decreases s.len(),
{
    if s.len() > 0 && f(s.last()) {
        trim_end_by(s.drop_last(), f)
    } else {
        s
    }
}

/// `str::trim`.
pub open spec fn trim_ws(s: Seq<char>) -> Seq<char> {
    trim_end_by(trim_start_by(s, |c: char| is_ws(c)), |c: char| is_ws(c))
}

pub open spec fn is_char(c: char) -> spec_fn(char) -> bool {
    |x: char| x == c
}

/// `str::trim_start_matches(c)`.
pub open spec fn trim_start_char(s: Seq<char>, c: char) -> Seq<char> {
    trim_start_by(s, is_char(c))
}

/// `str::trim_end_matches(c)`.
pub open spec fn trim_end_char(s: Seq<char>, c: char) -> Seq<char> {
    trim_end_by(s, is_char(c))
}

proof fn lemma_trim_start_skip(s: Seq<char>, f: spec_fn(char) -> bool, i: int)
    requires
        0 <= i <= s.len(),
        forall|j: int| 0 <= j < i ==> f(s[j]),
    ensures
        trim_start_by(s, f) == trim_start_by(s.skip(i), f),
    decreases i,
{
    if i > 0 {
        assert(s.drop_first().skip(i - 1) =~= s.skip(i));
        lemma_trim_start_skip(s.drop_first(), f, i - 1);
    } else {
        assert(s.skip(0) =~= s);
    }
}

proof fn lemma_trim_end_take(s: Seq<char>, f: spec_fn(char) -> bool, k: int)
    requires
        0 <= k <= s.len(),
        forall|j: int| k <= j < s.len() ==> f(s[j]),
    ensures
        trim_end_by(s, f) == trim_end_by(s.take(k), f),
    decreases s.len() - k,
{
    if k < s.len() {
        assert(s.drop_last().take(k) =~= s.take(k));
        lemma_trim_end_take(s.drop_last(), f, k);
    } else {
        assert(s.take(k) =~= s);
    }
}

/// `s` with leading and trailing whitespace removed.
pub fn trim_whitespace(s: &Vec<char>) -> (r: Vec<char>)
    ensures
        r@ == trim_ws(s@),
{
    let ghost f = |c: char| is_ws(c);
    let mut i: usize = 0;
    while i < s.len() && is_whitespace(s[i])
        invariant
            i <= s.len(),
            forall|j: int| 0 <= j < i ==> is_ws(s@[j]),
        decreases s.len() - i,
    {
        i += 1;
    }
    proof {
        lemma_trim_start_skip(s@, f, i as int);
    }
    let ghost t = s@.skip(i as int);
    assert(trim_start_by(t, f) == t);
    let mut k: usize = s.len();
    while k > i && is_whitespace(s[k - 1])
        invariant
            i <= k <= s.len(),
            forall|j: int| k <= j < s.len() ==> is_ws(s@[j]),
        decreases k,
    {
        k -= 1;
    }
    proof {
        lemma_trim_end_take(t, f, k - i);
        let u = t.take(k - i);
        if u.len() > 0 {
            assert(u.last() == s@[k - 1]);
        }
        assert(trim_end_by(u, f) == u);
        assert(u =~= s@.subrange(i as int, k as int));
    }
    slice_chars(s, i, k)
}

/// `s` with every leading `c` removed.
pub fn trim_start_matches(s: &Vec<char>, c: char) -> (r: Vec<char>)
    ensures
        r@ == trim_start_char(s@, c),
{
    let ghost f = is_char(c);
    let mut i: usize = 0;
    while i < s.len() && s[i] == c
        invariant
            i <= s.len(),
            forall|j: int| 0 <= j < i ==> s@[j] == c,
        decreases s.len() - i,
    {
        i += 1;
    }
    proof {
        lemma_trim_start_skip(s@, f, i as int);
        assert(s@.skip(i as int) =~= s@.subrange(i as int, s.len() as int));
    }
    slice_chars(s, i, s.len())
}

/// `s` with every trailing `c` removed.
pub fn trim_end_matches(s: &Vec<char>, c: char) -> (r: Vec<char>)
    ensures
        r@ == trim_end_char(s@, c),
{
    let ghost f = is_char(c);
    let mut k: usize = s.len();
    while k > 0 && s[k - 1] == c
        invariant
            k <= s.len(),
            forall|j: int| k <= j < s.len() ==> s@[j] == c,
        decreases k,
    {
        k -= 1;
    }
    proof {
        lemma_trim_end_take(s@, f, k as int);
        assert(s@.take(k as int) =~= s@.subrange(0, k as int));
    }
    slice_chars(s, 0, k)
}

// ---------------------------------------------------------------------------
// UTF-8 lengths
// ---------------------------------------------------------------------------

/// Number of bytes UTF-8 uses for a character.
pub open spec fn char_width(c: char) -> nat {
    let v = c as u32;
    if v <= 0x7F {
        1
    } else if v <= 0x7FF {
        2
    } else if v <= 0xFFFF {
        3
    } else {
        4
    }
}

proof fn lemma_encode_scalar_len(c: char)
    ensures
        vstd::utf8::encode_scalar(c as u32).len() == char_width(c),
{
    vstd::utf8::char_is_scalar(c);
}

proof fn lemma_encode_utf8_push(s: Seq<char>, c: char)
    ensures
        vstd::utf8::encode_utf8(s.push(c)).len() == vstd::utf8::encode_utf8(s).len() + char_width(c),
    decreases s.len(),
{
    lemma_encode_scalar_len(c);
    let t = s.push(c);
    if s.len() == 0 {
        assert(t.drop_first() =~= Seq::<char>::empty());
        assert(vstd::utf8::encode_utf8(t.drop_first()).len() == 0);
        assert(t[0] == c);
    } else {
        lemma_encode_utf8_push(s.drop_first(), c);
        assert(t.drop_first() =~= s.drop_first().push(c));
        assert(t[0] == s[0]);
        lemma_encode_scalar_len(s[0]);
    }
}

/// The number of UTF-8 bytes of `s`, or `cap` if that is smaller.
pub fn utf8_len_capped(s: &Vec<char>, cap: usize) -> (n: usize)
    ensures
        n == if vstd::utf8::encode_utf8(s@).len() < cap { vstd::utf8::encode_utf8(s@).len() } else { cap as nat },
{
    let mut n: usize = 0;
    let mut i: usize = 0;
    while i < s.len()
        invariant
            i <= s.len(),
            n == if vstd::utf8::encode_utf8(s@.take(i as int)).len() < cap {
                vstd::utf8::encode_utf8(s@.take(i as int)).len()
            } else {
                cap as nat
            },
        decreases s.len() - i,
    {
        proof {
            lemma_encode_utf8_push(s@.take(i as int), s@[i as int]);
            assert(s@.take(i as int).push(s@[i as int]) =~= s@.take(i + 1));
        }
        let c = s[i] as u32;
        let w: usize = if c <= 0x7F {
            1
        } else if c <= 0x7FF {
            2
        } else if c <= 0xFFFF {
            3
        } else {
            4
        };
        if n < cap {
            if cap - n <= w {
                n = cap;
            } else {
                n = n + w;
            }
        }
        i += 1;
    }
    assert(s@.take(s.len() as int) =~= s@);
    n
}

// ---------------------------------------------------------------------------
// Case mapping
// ---------------------------------------------------------------------------

/// What `str::to_lowercase` returns for the given characters.
pub uninterp spec fn lowercase(s: Seq<char>) -> Seq<char>;

/// Every character is ASCII.
pub open spec fn all_ascii(s: Seq<char>) -> bool {
    forall|i: int| 0 <= i < s.len() ==> (#[trigger] s[i] as u32) < 128
}

/// An ASCII upper-case letter turned into its lower-case letter; any other character kept.
pub open spec fn ascii_lower(c: char) -> char {
    if 'A' <= c && c <= 'Z' {
        ((c as u32) + 32) as char
    } else {
        c
    }
}

/// Calls `str::to_lowercase`, the full Unicode lower-case mapping. On ASCII text it maps each
/// upper-case letter to its lower-case letter and keeps every other character, as the
/// standard library documents for ASCII.
#[verifier::external_body]
pub fn to_lowercase(s: &Vec<char>) -> (r: Vec<char>)
    ensures
        r@ == lowercase(s@),
        all_ascii(s@) ==> r@ == Seq::new(s@.len(), |i: int| ascii_lower(s@[i])),
{
    let text: String = s.iter().collect();
    text.to_lowercase().chars().collect()
}

} // verus!
