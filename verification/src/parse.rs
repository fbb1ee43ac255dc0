//! Text forms of integers, booleans and floats, as std's `FromStr` and
//! `Display` document them.
use vstd::prelude::*;

use crate::text::{chars_of, owned, string_from_chars};

verus! {

pub open spec fn is_digit(c: char) -> bool {
    '0' <= c && c <= '9'
}

pub open spec fn digit_value(c: char) -> int {
    (c as int) - ('0' as int)
}

pub open spec fn digit_char(d: int) -> char
    recommends
        0 <= d < 10,
{
    (d + ('0' as int)) as char
}

pub open spec fn all_digits(s: Seq<char>) -> bool {
    forall|i: int| 0 <= i < s.len() ==> is_digit(#[trigger] s[i])
}

/// Why an integer could not be read, as std's `IntErrorKind` names it.
#[derive(Debug, Clone, Copy, PartialEq, Eq)]
pub enum IntErrorKind {
    Empty,
    InvalidDigit,
    PosOverflow,
    NegOverflow,
}

/// Reads the digits of `body` from the left onto `acc`, checking each
/// character before the range of the new value: the order in which std's
/// `from_str_radix` reports errors.
pub open spec fn scan_digits(body: Seq<char>, neg: bool, acc: int, min: int, max: int) -> Result<
    int,
    IntErrorKind,
>
    decreases body.len(),
{
    if body.len() == 0 {
        Ok(acc)
    } else if !is_digit(body[0]) {
        Err(IntErrorKind::InvalidDigit)
    } else {
        let next = if neg {
            acc * 10 - digit_value(body[0])
        } else {
            acc * 10 + digit_value(body[0])
        };
        if next > max {
            Err(IntErrorKind::PosOverflow)
        } else if next < min {
            Err(IntErrorKind::NegOverflow)
        } else {
            scan_digits(body.drop_first(), neg, next, min, max)
        }
    }
}

/// The result of std's `FromStr` for a signed integer type with range
/// `min..=max`: an optional `+` or `-` followed by decimal digits.
pub open spec fn spec_parse_int(s: Seq<char>, min: int, max: int) -> Result<int, IntErrorKind> {
    if s.len() == 0 {
        Err(IntErrorKind::Empty)
    } else if (s[0] == '+' || s[0] == '-') && s.len() == 1 {
        Err(IntErrorKind::InvalidDigit)
    } else if s[0] == '-' {
        scan_digits(s.drop_first(), true, 0, min, max)
    } else if s[0] == '+' {
        scan_digits(s.drop_first(), false, 0, min, max)
    } else {
        scan_digits(s, false, 0, min, max)
    }
}

pub open spec fn spec_parse_i64(s: Seq<char>) -> Result<int, IntErrorKind> {
    spec_parse_int(s, i64::MIN as int, i64::MAX as int)
}

pub open spec fn spec_parse_i32(s: Seq<char>) -> Result<int, IntErrorKind> {
    spec_parse_int(s, i32::MIN as int, i32::MAX as int)
}

fn scan_digits_exec(v: &Vec<char>, start: usize, neg: bool, min: i64, max: i64) -> (r: Result<
    i64,
    IntErrorKind,
>)
    requires
        start <= v.len(),
        min <= 0 <= max,
    ensures
        r matches Ok(x) ==> min <= x <= max,
        r matches Ok(x) ==> scan_digits(v@.skip(start as int), neg, 0, min as int, max as int)
            == Ok::<int, IntErrorKind>(x as int),
        r matches Err(e) ==> scan_digits(v@.skip(start as int), neg, 0, min as int, max as int)
            == Err::<int, IntErrorKind>(e),
{
    let mut acc: i64 = 0;
    let mut i: usize = start;
    while i < v.len()
        invariant
            start <= i <= v.len(),
            min <= acc <= max,
            min <= 0 <= max,
            scan_digits(v@.skip(start as int), neg, 0, min as int, max as int) == scan_digits(
                v@.skip(i as int),
                neg,
                acc as int,
                min as int,
                max as int,
            ),
        decreases v.len() - i,
    {
        let c = v[i];
        proof {
            assert(v@.skip(i as int)[0] == c);
            assert(v@.skip(i as int).drop_first() =~= v@.skip(i + 1));
        }
        if !('0' <= c && c <= '9') {
            return Err(IntErrorKind::InvalidDigit);
        }
        let d: i128 = (c as u32 - '0' as u32) as i128;
        let next: i128 = if neg {
            acc as i128 * 10 - d
        } else {
            acc as i128 * 10 + d
        };
        if next > max as i128 {
            return Err(IntErrorKind::PosOverflow);
        }
        if next < min as i128 {
            return Err(IntErrorKind::NegOverflow);
        }
        acc = next as i64;
        i = i + 1;
    }
    proof {
        assert(v@.skip(i as int).len() == 0);
    }
    Ok(acc)
}

fn parse_int_in(s: &str, min: i64, max: i64) -> (r: Result<i64, IntErrorKind>)
    requires
        min <= 0 <= max,
    ensures
        r matches Ok(x) ==> min <= x <= max,
        r matches Ok(x) ==> spec_parse_int(s@, min as int, max as int) == Ok::<
            int,
            IntErrorKind,
        >(x as int),
        r matches Err(e) ==> spec_parse_int(s@, min as int, max as int) == Err::<
            int,
            IntErrorKind,
        >(e),
{
    let v = chars_of(s);
    if v.len() == 0 {
        return Err(IntErrorKind::Empty);
    }
    let first = v[0];
    if (first == '+' || first == '-') && v.len() == 1 {
        return Err(IntErrorKind::InvalidDigit);
    }
    if first == '-' {
        proof {
            assert(v@.skip(1) =~= s@.drop_first());
        }
        scan_digits_exec(&v, 1, true, min, max)
    } else if first == '+' {
        proof {
            assert(v@.skip(1) =~= s@.drop_first());
        }
        scan_digits_exec(&v, 1, false, min, max)
    } else {
        proof {
            assert(v@.skip(0) =~= s@);
        }
        scan_digits_exec(&v, 0, false, min, max)
    }
}

/// `s.parse::<i64>()`, with its error kind.
pub fn parse_i64(s: &str) -> (r: Result<i64, IntErrorKind>)
    ensures
        r matches Ok(x) ==> spec_parse_i64(s@) == Ok::<int, IntErrorKind>(x as int),
        r matches Err(e) ==> spec_parse_i64(s@) == Err::<int, IntErrorKind>(e),
{
    parse_int_in(s, i64::MIN, i64::MAX)
}

/// `s.parse::<i32>()`, with its error kind.
pub fn parse_i32(s: &str) -> (r: Result<i32, IntErrorKind>)
    ensures
        r matches Ok(x) ==> spec_parse_i32(s@) == Ok::<int, IntErrorKind>(x as int),
        r matches Err(e) ==> spec_parse_i32(s@) == Err::<int, IntErrorKind>(e),
{
    match parse_int_in(s, i32::MIN as i64, i32::MAX as i64) {
        Ok(x) => Ok(x as i32),
        Err(e) => Err(e),
    }
}

/// The text std's `ParseIntError` displays for each kind.
pub open spec fn int_error_text(kind: IntErrorKind) -> Seq<char> {
    match kind {
        IntErrorKind::Empty => "cannot parse integer from empty string"@,
        IntErrorKind::InvalidDigit => "invalid digit found in string"@,
        IntErrorKind::PosOverflow => "number too large to fit in target type"@,
        IntErrorKind::NegOverflow => "number too small to fit in target type"@,
    }
}

impl IntErrorKind {
    /// The message std displays for this kind of error.
    pub fn message(&self) -> (r: String)
        ensures
            r@ == int_error_text(*self),
    {
        match self {
            IntErrorKind::Empty => owned("cannot parse integer from empty string"),
            IntErrorKind::InvalidDigit => owned("invalid digit found in string"),
            IntErrorKind::PosOverflow => owned("number too large to fit in target type"),
            IntErrorKind::NegOverflow => owned("number too small to fit in target type"),
        }
    }
}

/// The result of std's `FromStr` for `bool`: exactly `true` or `false`.
pub open spec fn spec_parse_bool(s: Seq<char>) -> Option<bool> {
    if s == "true"@ {
        Some(true)
    } else if s == "false"@ {
        Some(false)
    } else {
        None
    }
}

/// `s.parse::<bool>().ok()`.
pub fn parse_bool(s: &str) -> (r: Option<bool>)
    ensures
        r == spec_parse_bool(s@),
{
    let v = chars_of(s);
    proof {
        reveal_strlit("true");
        reveal_strlit("false");
    }
    if v.len() == 4 && v[0] == 't' && v[1] == 'r' && v[2] == 'u' && v[3] == 'e' {
        proof {
            assert(s@ =~= "true"@);
        }
        Some(true)
    } else if v.len() == 5 && v[0] == 'f' && v[1] == 'a' && v[2] == 'l' && v[3] == 's' && v[4]
        == 'e' {
        proof {
            assert(s@ =~= "false"@);
        }
        Some(false)
    } else {
        proof {
            if s@ == "true"@ {
                assert(v@[3] == 'e');
            }
            if s@ == "false"@ {
                assert(v@[4] == 'e');
            }
        }
        None
    }
}

/// The text std's `ParseBoolError` displays.
pub open spec fn bool_error_text() -> Seq<char> {
    "provided string was not `true` or `false`"@
}

pub fn bool_error_message() -> (r: String)
    ensures
        r@ == bool_error_text(),
{
    owned("provided string was not `true` or `false`")
}


/// Decimal digits of `n`, most significant first, without leading zeros.
pub open spec fn nat_text(n: nat) -> Seq<char>
    decreases n,
{
    if n < 10 {
        seq![digit_char(n as int)]
    } else {
        nat_text(n / 10).push(digit_char((n % 10) as int))
    }
}

/// The text std's `Display` gives a signed integer.
pub open spec fn int_text(v: int) -> Seq<char> {
    if v < 0 {
        seq!['-'] + nat_text((-v) as nat)
    } else {
        nat_text(v as nat)
    }
}

fn push_nat_digits(n: u64, out: &mut Vec<char>)
    ensures
        final(out)@ == old(out)@ + nat_text(n as nat),
    decreases n,
{
    if n >= 10 {
        push_nat_digits(n / 10, out);
    }
    let d = (n % 10) as u8;
    let c = (48u8 + d) as char;
    proof {
        assert(c == digit_char((n % 10) as int));
    }
    out.push(c);
    proof {
        if n >= 10 {
            assert(nat_text(n as nat) == nat_text((n / 10) as nat).push(digit_char((n % 10) as int)));
        }
    }
}

/// `v.to_string()` for an `i64`.
pub fn i64_text(v: i64) -> (r: String)
    ensures
        r@ == int_text(v as int),
{
    let mut out: Vec<char> = Vec::new();
    let magnitude: u64 = if v < 0 {
        out.push('-');
        (0i128 - v as i128) as u64
    } else {
        v as u64
    };
    push_nat_digits(magnitude, &mut out);
    proof {
        if v < 0 {
            assert(out@ =~= seq!['-'] + nat_text((-v) as nat));
        } else {
            assert(out@ =~= nat_text(v as nat));
        }
    }
    string_from_chars(&out)
}

/// `n.to_string()` for a `usize`.
pub fn usize_text(n: usize) -> (r: String)
    ensures
        r@ == nat_text(n as nat),
{
    let mut out: Vec<char> = Vec::new();
    push_nat_digits(n as u64, &mut out);
    proof {
        assert(out@ =~= nat_text(n as nat));
    }
    string_from_chars(&out)
}

/// The value of the digits `s`, read from the left onto `acc`.
pub open spec fn digits_fold(acc: int, s: Seq<char>) -> int
    decreases s.len(),
{
    if s.len() == 0 {
        acc
    } else {
        digits_fold(acc * 10 + digit_value(s[0]), s.drop_first())
    }
}

/// The same, for a negative number read digit by digit.
pub open spec fn negative_digits_fold(acc: int, s: Seq<char>) -> int
    decreases s.len(),
{
    if s.len() == 0 {
        acc
    } else {
        negative_digits_fold(acc * 10 - digit_value(s[0]), s.drop_first())
    }
}

proof fn lemma_fold_grows(acc: int, s: Seq<char>)
    requires
        all_digits(s),
        acc >= 0,
    ensures
        digits_fold(acc, s) >= acc,
    decreases s.len(),
{
    if s.len() > 0 {
        assert(is_digit(s[0]));
        assert(all_digits(s.drop_first())) by {
            assert forall|i: int| 0 <= i < s.drop_first().len() implies is_digit(#[trigger] s.drop_first()[i]) by {
                assert(s.drop_first()[i] == s[i + 1]);
            }
        }
        lemma_fold_grows(acc * 10 + digit_value(s[0]), s.drop_first());
    }
}

proof fn lemma_negative_fold(acc: int, s: Seq<char>)
    ensures
        negative_digits_fold(acc, s) == -digits_fold(-acc, s),
    decreases s.len(),
{
    if s.len() > 0 {
        lemma_negative_fold(acc * 10 - digit_value(s[0]), s.drop_first());
    }
}

proof fn lemma_scan_positive(s: Seq<char>, acc: int, min: int, max: int)
    requires
        all_digits(s),
        acc >= 0,
        min <= 0,
        digits_fold(acc, s) <= max,
    ensures
        scan_digits(s, false, acc, min, max) == Ok::<int, IntErrorKind>(digits_fold(acc, s)),
    decreases s.len(),
{
    if s.len() > 0 {
        assert(is_digit(s[0]));
        let next = acc * 10 + digit_value(s[0]);
        assert(all_digits(s.drop_first())) by {
            assert forall|i: int| 0 <= i < s.drop_first().len() implies is_digit(#[trigger] s.drop_first()[i]) by {
                assert(s.drop_first()[i] == s[i + 1]);
            }
        }
        lemma_fold_grows(next, s.drop_first());
        lemma_scan_positive(s.drop_first(), next, min, max);
    }
}

proof fn lemma_scan_negative(s: Seq<char>, acc: int, min: int, max: int)
    requires
        all_digits(s),
        acc <= 0,
        max >= 0,
        negative_digits_fold(acc, s) >= min,
    ensures
        scan_digits(s, true, acc, min, max) == Ok::<int, IntErrorKind>(negative_digits_fold(acc, s)),
    decreases s.len(),
{
    if s.len() > 0 {
        assert(is_digit(s[0]));
        let next = acc * 10 - digit_value(s[0]);
        assert(all_digits(s.drop_first())) by {
            assert forall|i: int| 0 <= i < s.drop_first().len() implies is_digit(#[trigger] s.drop_first()[i]) by {
                assert(s.drop_first()[i] == s[i + 1]);
            }
        }
        lemma_negative_fold(next, s.drop_first());
        lemma_fold_grows(-next, s.drop_first());
        lemma_scan_negative(s.drop_first(), next, min, max);
    }
}

proof fn lemma_fold_push(acc: int, s: Seq<char>, c: char)
    ensures
        digits_fold(acc, s.push(c)) == digits_fold(acc, s) * 10 + digit_value(c),
    decreases s.len(),
{
    let t = s.push(c);
    assert(t.len() > 0);
    assert(t[0] == if s.len() == 0 { c } else { s[0] });
    let x = acc * 10 + digit_value(t[0]);
    assert(digits_fold(acc, t) == digits_fold(x, t.drop_first()));
    if s.len() == 0 {
        assert(t.drop_first() =~= Seq::<char>::empty());
        assert(digits_fold(x, t.drop_first()) == x);
        assert(digits_fold(acc, s) == acc);
    } else {
        assert(t.drop_first() =~= s.drop_first().push(c));
        lemma_fold_push(x, s.drop_first(), c);
        assert(digits_fold(acc, s) == digits_fold(x, s.drop_first()));
    }
}

proof fn lemma_digit_char(d: int)
    requires
        0 <= d < 10,
    ensures
        is_digit(digit_char(d)),
        digit_value(digit_char(d)) == d,
{
    assert((d + 48) as char as int == d + 48);
}

/// The digits of `n` are digits, there is at least one, and they read back as `n`.
pub proof fn lemma_nat_text(n: nat)
    ensures
        all_digits(nat_text(n)),
        nat_text(n).len() >= 1,
        digits_fold(0, nat_text(n)) == n,
    decreases n,
{
    lemma_digit_char((n % 10) as int);
    if n < 10 {
        let u = nat_text(n);
        assert(u == seq![digit_char(n as int)]);
        assert(u[0] == digit_char(n as int));
        assert(u.drop_first() =~= Seq::<char>::empty());
        assert(digits_fold(n as int, u.drop_first()) == n);
        assert(digits_fold(0, u) == digits_fold(0 * 10 + digit_value(u[0]), u.drop_first()));
    } else {
        lemma_nat_text(n / 10);
        let t = nat_text(n / 10);
        assert(all_digits(t.push(digit_char((n % 10) as int)))) by {
            assert forall|i: int| 0 <= i < t.len() + 1 implies is_digit(#[trigger] t.push(digit_char((n % 10) as int))[i]) by {
                if i < t.len() {
                    assert(t.push(digit_char((n % 10) as int))[i] == t[i]);
                }
            }
        }
        lemma_fold_push(0, t, digit_char((n % 10) as int));
        assert(nat_text(n) == t.push(digit_char((n % 10) as int)));
        assert((n / 10) * 10 + n % 10 == n);
    }
}

/// The text of an `i64` reads back as the same `i64`.
pub proof fn lemma_int_text_parses(v: i64)
    ensures
        spec_parse_i64(int_text(v as int)) == Ok::<int, IntErrorKind>(v as int),
{
    let s = int_text(v as int);
    if v >= 0 {
        lemma_nat_text(v as nat);
        assert(is_digit(s[0]));
        lemma_scan_positive(s, 0, i64::MIN as int, i64::MAX as int);
    } else {
        let t = nat_text((-v) as nat);
        lemma_nat_text((-v) as nat);
        assert(s[0] == '-');
        assert(s.drop_first() =~= t);
        lemma_negative_fold(0, t);
        lemma_scan_negative(t, 0, i64::MIN as int, i64::MAX as int);
    }
}

/// The text of an integer is also float text.
pub proof fn lemma_int_text_is_float_text(v: int)
    ensures
        is_float_text(int_text(v)),
{
    let s = int_text(v);
    let t = nat_text(if v < 0 { (-v) as nat } else { v as nat });
    lemma_nat_text(if v < 0 { (-v) as nat } else { v as nat });
    if v < 0 {
        assert(s[0] == '-');
        assert(s.drop_first() =~= t);
    } else {
        assert(is_digit(s[0]));
    }
    assert(unsigned_part(s) == t);
    assert(is_digit(t[0]));
    assert(is_mantissa_text(t));
}

/// ASCII lower case of one character.
pub open spec fn ascii_lower(c: char) -> char {
    if 'A' <= c && c <= 'Z' {
        ((c as int) + 32) as char
    } else {
        c
    }
}

pub open spec fn lower_text(s: Seq<char>) -> Seq<char> {
    s.map_values(|c: char| ascii_lower(c))
}

/// `inf`, `infinity` or `nan`, in any case.
pub open spec fn is_special_float_text(s: Seq<char>) -> bool {
    let l = lower_text(s);
    l == "inf"@ || l == "infinity"@ || l == "nan"@
}

/// Digits with at most one `.` among them, and at least one digit.
pub open spec fn is_mantissa_text(m: Seq<char>) -> bool {
    &&& forall|i: int| 0 <= i < m.len() ==> is_digit(#[trigger] m[i]) || m[i] == '.'
    &&& forall|i: int, j: int| 0 <= i < m.len() && 0 <= j < m.len() && m[i] == '.' && m[j] == '.' ==> i == j
    &&& exists|i: int| 0 <= i < m.len() && is_digit(#[trigger] m[i])
}

/// An optional sign followed by at least one digit.
pub open spec fn is_exponent_text(x: Seq<char>) -> bool {
    let y = unsigned_part(x);
    y.len() > 0 && all_digits(y)
}

pub open spec fn is_exp_marker(c: char) -> bool {
    c == 'e' || c == 'E'
}

/// A mantissa, optionally followed by `e` or `E` and an exponent.
pub open spec fn is_number_text(b: Seq<char>) -> bool {
    ||| is_mantissa_text(b)
    ||| exists|k: int|
        0 <= k < b.len() && is_exp_marker(#[trigger] b[k]) && is_mantissa_text(b.take(k))
            && is_exponent_text(b.skip(k + 1))
}

pub open spec fn unsigned_part(s: Seq<char>) -> Seq<char> {
    if s.len() > 0 && (s[0] == '+' || s[0] == '-') {
        s.drop_first()
    } else {
        s
    }
}

/// The strings std's `FromStr` for `f64` accepts: an optional sign, then
/// `inf`, `infinity` or `nan` in any case, or a decimal number.
pub open spec fn is_float_text(s: Seq<char>) -> bool {
    let body = unsigned_part(s);
    is_special_float_text(body) || is_number_text(body)
}


fn matches_word_ignoring_case(v: &Vec<char>, lo: usize, word: &str) -> (r: bool)
    requires
        lo <= v.len(),
        forall|i: int| 0 <= i < word@.len() ==> 'a' <= #[trigger] word@[i] && word@[i] <= 'z',
    ensures
        r == (lower_text(v@.skip(lo as int)) == word@),
{
    let w = chars_of(word);
    if v.len() - lo != w.len() {
        proof {
            assert(lower_text(v@.skip(lo as int)).len() != word@.len());
        }
        return false;
    }
    let mut i: usize = 0;
    while i < w.len()
        invariant
            w@ == word@,
            lo <= v.len(),
            v.len() - lo == w.len(),
            i <= w.len(),
            forall|j: int| 0 <= j < word@.len() ==> 'a' <= #[trigger] word@[j] && word@[j] <= 'z',
            forall|j: int| 0 <= j < i ==> ascii_lower(#[trigger] v@[lo + j]) == w@[j],
        decreases w.len() - i,
    {
        let c = v[lo + i];
        let d = w[i];
        let same = c == d || ('A' <= c && c <= 'Z' && (c as u32) + 32 == (d as u32));
        if !same {
            proof {
                assert(lower_text(v@.skip(lo as int))[i as int] == ascii_lower(c));
            }
            return false;
        }
        proof {
            if c != d {
                assert((c as int) + 32 == d as int);
                assert(((c as int) + 32) as char == d);
            }
            assert(ascii_lower(c) == d);
        }
        i = i + 1;
    }
    proof {
        assert forall|j: int| 0 <= j < word@.len() implies #[trigger] lower_text(
            v@.skip(lo as int),
        )[j] == word@[j] by {
            assert(v@.skip(lo as int)[j] == v@[lo + j]);
        }
        assert(lower_text(v@.skip(lo as int)) =~= word@);
    }
    true
}

fn is_special_float_at(v: &Vec<char>, lo: usize) -> (r: bool)
    requires
        lo <= v.len(),
    ensures
        r == is_special_float_text(v@.skip(lo as int)),
{
    proof {
        reveal_strlit("inf");
        reveal_strlit("infinity");
        reveal_strlit("nan");
    }
    matches_word_ignoring_case(v, lo, "inf") || matches_word_ignoring_case(v, lo, "infinity")
        || matches_word_ignoring_case(v, lo, "nan")
}

fn is_mantissa_at(v: &Vec<char>, lo: usize, hi: usize) -> (r: bool)
    requires
        lo <= hi <= v.len(),
    ensures
        r == is_mantissa_text(v@.subrange(lo as int, hi as int)),
{
    let ghost m = v@.subrange(lo as int, hi as int);
    let mut seen_dot = false;
    let mut dot_at: usize = 0;
    let mut seen_digit = false;
    let mut digit_at: usize = 0;
    let mut i: usize = lo;
    while i < hi
        invariant
            lo <= i <= hi <= v.len(),
            m == v@.subrange(lo as int, hi as int),
            forall|j: int| lo <= j < i ==> is_digit(#[trigger] v@[j]) || v@[j] == '.',
            seen_dot ==> lo <= dot_at < i && v@[dot_at as int] == '.',
            seen_dot ==> forall|j: int| lo <= j < i && v@[j] == '.' ==> j == dot_at,
            !seen_dot ==> forall|j: int| lo <= j < i ==> v@[j] != '.',
            seen_digit ==> lo <= digit_at < i && is_digit(v@[digit_at as int]),
            !seen_digit ==> forall|j: int| lo <= j < i ==> !is_digit(#[trigger] v@[j]),
        decreases hi - i,
    {
        let c = v[i];
        if '0' <= c && c <= '9' {
            seen_digit = true;
            digit_at = i;
        } else if c == '.' {
            if seen_dot {
                proof {
                    assert(m[dot_at - lo] == '.');
                    assert(m[i - lo] == '.');
                }
                return false;
            }
            seen_dot = true;
            dot_at = i;
        } else {
            proof {
                assert(m[i - lo] == c);
            }
            return false;
        }
        i = i + 1;
    }
    if !seen_digit {
        proof {
            assert forall|j: int| 0 <= j < m.len() implies !is_digit(#[trigger] m[j]) by {
                assert(m[j] == v@[lo + j]);
            }
        }
        return false;
    }
    proof {
        assert(m[digit_at - lo] == v@[digit_at as int]);
        assert forall|j: int| 0 <= j < m.len() implies is_digit(#[trigger] m[j]) || m[j] == '.' by {
            assert(m[j] == v@[lo + j]);
        }
        assert forall|a: int, b: int|
            0 <= a < m.len() && 0 <= b < m.len() && m[a] == '.' && m[b] == '.' implies a == b by {
            assert(m[a] == v@[lo + a]);
            assert(m[b] == v@[lo + b]);
        }
    }
    true
}

fn is_exponent_at(v: &Vec<char>, lo: usize) -> (r: bool)
    requires
        lo <= v.len(),
    ensures
        r == is_exponent_text(v@.skip(lo as int)),
{
    let ghost x = v@.skip(lo as int);
    let start: usize = if lo < v.len() && (v[lo] == '+' || v[lo] == '-') {
        lo + 1
    } else {
        lo
    };
    proof {
        if x.len() > 0 {
            assert(x[0] == v@[lo as int]);
        }
        if lo < v.len() && (v@[lo as int] == '+' || v@[lo as int] == '-') {
            assert(x.drop_first() =~= v@.skip(start as int));
        } else {
            assert(x =~= v@.skip(start as int));
        }
    }
    if start == v.len() {
        return false;
    }
    let mut i: usize = start;
    while i < v.len()
        invariant
            start <= i <= v.len(),
            x == v@.skip(lo as int),
            unsigned_part(x) == v@.skip(start as int),
            forall|j: int| start <= j < i ==> is_digit(#[trigger] v@[j]),
        decreases v.len() - i,
    {
        if !('0' <= v[i] && v[i] <= '9') {
            proof {
                assert(v@.skip(start as int)[i - start] == v@[i as int]);
                assert(!all_digits(v@.skip(start as int)));
            }
            return false;
        }
        i = i + 1;
    }
    proof {
        assert forall|j: int| 0 <= j < v@.skip(start as int).len() implies is_digit(
            #[trigger] v@.skip(start as int)[j],
        ) by {
            assert(v@.skip(start as int)[j] == v@[start + j]);
        }
    }
    true
}

fn is_number_at(v: &Vec<char>, lo: usize) -> (r: bool)
    requires
        lo <= v.len(),
    ensures
        r == is_number_text(v@.skip(lo as int)),
{
    let ghost b = v@.skip(lo as int);
    let mut k: usize = lo;
    while k < v.len() && !(v[k] == 'e' || v[k] == 'E')
        invariant
            lo <= k <= v.len(),
            forall|j: int| lo <= j < k ==> !is_exp_marker(#[trigger] v@[j]),
        decreases v.len() - k,
    {
        k = k + 1;
    }
    if k == v.len() {
        proof {
            assert(v@.subrange(lo as int, v.len() as int) =~= b);
            assert forall|j: int| 0 <= j < b.len() implies !is_exp_marker(#[trigger] b[j]) by {
                assert(b[j] == v@[lo + j]);
            }
        }
        return is_mantissa_at(v, lo, k);
    }
    let ghost rel: int = k - lo;
    let m = is_mantissa_at(v, lo, k);
    let e = is_exponent_at(v, k + 1);
    proof {
        assert(v@.subrange(lo as int, k as int) =~= b.take(rel));
        assert(v@.skip(k + 1) =~= b.skip(rel + 1));
        assert(b[rel] == v@[k as int]);
        assert(!is_mantissa_text(b)) by {
            if is_mantissa_text(b) {
                assert(is_digit(b[rel]) || b[rel] == '.');
            }
        }
        if !(m && e) {
            assert forall|k2: int|
                0 <= k2 < b.len() && is_exp_marker(#[trigger] b[k2]) implies !(is_mantissa_text(
                b.take(k2),
            ) && is_exponent_text(b.skip(k2 + 1))) by {
                assert(b[k2] == v@[lo + k2]);
                if k2 > rel {
                    if is_mantissa_text(b.take(k2)) {
                        assert(b.take(k2)[rel] == b[rel]);
                        assert(is_digit(b.take(k2)[rel]) || b.take(k2)[rel] == '.');
                    }
                }
            }
        }
    }
    m && e
}

/// `s.parse::<f64>().is_ok()`: whether `s` is a float literal std reads.
pub fn is_float(s: &str) -> (r: bool)
    ensures
        r == is_float_text(s@),
{
    let v = chars_of(s);
    let start: usize = if v.len() > 0 && (v[0] == '+' || v[0] == '-') {
        1
    } else {
        0
    };
    proof {
        if start == 1 {
            assert(v@.skip(1) =~= unsigned_part(s@));
        } else {
            assert(v@.skip(0) =~= unsigned_part(s@));
        }
    }
    is_special_float_at(&v, start) || is_number_at(&v, start)
}

/// The text std's `ParseFloatError` displays for a non-empty input.
pub open spec fn float_error_text() -> Seq<char> {
    "invalid float literal"@
}

pub fn float_error_message() -> (r: String)
    ensures
        r@ == float_error_text(),
{
    owned("invalid float literal")
}

} // verus!
