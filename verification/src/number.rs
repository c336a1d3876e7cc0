//! Decimal numerals as they stand in payloads: runs of ASCII digits with at
//! most one decimal point, read exactly.

use crate::finder::{digit, first_at, is_digit, lemma_first_at, seek, Mark, ScanError, HYPHEN, POINT};
use vstd::prelude::*;
use vstd::string::StringExecFns;

verus! {

/// The plus sign.
pub const PLUS: u8 = 0x2b;

/// The digit zero.
pub const ZERO: u8 = 0x30;

/// A non-negative decimal number: `digits` divided by ten to the `scale`.
///
/// `"0.01634790"` reads as 1634790 with scale 8, `"42"` as 42 with scale 0.
#[derive(Debug, Clone, Copy, PartialEq, Eq, Structural)]
pub struct Decimal {
    /// The value of the numeral with its point taken out.
    pub digits: u64,
    /// How many digits stood behind the point.
    pub scale: usize,
}

/// Whether `b` can stand in a decimal numeral.
pub open spec fn is_digit_or_point(b: u8) -> bool {
    is_digit(b) || b == POINT
}

/// Whether every byte of `t` is an ASCII digit.
pub open spec fn all_digits(t: Seq<u8>) -> bool {
    forall|i: int| 0 <= i < t.len() ==> is_digit(#[trigger] t[i])
}

/// What one digit counts.
pub open spec fn digit_value(b: u8) -> nat {
    if b >= ZERO {
        (b - ZERO) as nat
    } else {
        0
    }
}

/// The number that a run of digits writes, most significant digit first.
pub open spec fn digits_value(t: Seq<u8>) -> nat
    decreases t.len(),
{
    if t.len() == 0 {
        0
    } else {
        digits_value(t.drop_last()) * 10 + digit_value(t.last())
    }
}

/// The digits of a decimal numeral: the numeral without its first point.
pub open spec fn decimal_digits(t: Seq<u8>) -> Seq<u8> {
    let point = first_at(t, 0, Mark::Byte(POINT));
    if point < t.len() {
        t.remove(point)
    } else {
        t
    }
}

/// How many digits of a decimal numeral stand behind its point.
pub open spec fn decimal_scale(t: Seq<u8>) -> int {
    let point = first_at(t, 0, Mark::Byte(POINT));
    if point < t.len() {
        t.len() - point - 1
    } else {
        0
    }
}

/// A decimal numeral is one digit or more, with at most one point among or
/// behind them.
pub open spec fn is_decimal(t: Seq<u8>) -> bool {
    decimal_digits(t).len() > 0 && all_digits(decimal_digits(t))
}

/// What a token reads as: a grammar error unless it is a decimal numeral, a
/// range error when its digits exceed 64 bits.
pub open spec fn decimal_of(t: Seq<u8>) -> Result<Decimal, ScanError> {
    if !is_decimal(t) {
        Err(ScanError::Grammar)
    } else if digits_value(decimal_digits(t)) > u64::MAX {
        Err(ScanError::OutOfRange)
    } else {
        Ok(Decimal { digits: digits_value(decimal_digits(t)) as u64, scale: decimal_scale(t) as usize })
    }
}

/// The digits of a signed numeral: the numeral without a leading sign.
pub open spec fn unsigned_part(t: Seq<u8>) -> Seq<u8> {
    if t.len() > 0 && (t[0] == HYPHEN || t[0] == PLUS) {
        t.drop_first()
    } else {
        t
    }
}

/// An integer numeral is one digit or more behind an optional sign.
pub open spec fn is_integer(t: Seq<u8>) -> bool {
    unsigned_part(t).len() > 0 && all_digits(unsigned_part(t))
}

/// The number that an integer numeral writes.
pub open spec fn integer_value(t: Seq<u8>) -> int {
    if t.len() > 0 && t[0] == HYPHEN {
        -(digits_value(unsigned_part(t)) as int)
    } else {
        digits_value(unsigned_part(t)) as int
    }
}

/// What a token reads as within `low..=high`: a grammar error unless it is
/// an integer numeral, a range error when its value lies outside.
pub open spec fn integer_of(t: Seq<u8>, low: int, high: int) -> Result<int, ScanError> {
    if !is_integer(t) {
        Err(ScanError::Grammar)
    } else if !(low <= integer_value(t) <= high) {
        Err(ScanError::OutOfRange)
    } else {
        Ok(integer_value(t))
    }
}

/// Appending a digit multiplies by ten and adds the digit.
pub proof fn lemma_digits_push(t: Seq<u8>, d: u8)
    ensures
        digits_value(t.push(d)) == digits_value(t) * 10 + digit_value(d),
{
    assert(t.push(d).drop_last() =~= t);
}

/// A run of digits writes at least what any of its prefixes writes.
pub proof fn lemma_digits_prefix(t: Seq<u8>, k: int)
    requires
        all_digits(t),
        0 <= k <= t.len(),
    ensures
        digits_value(t.subrange(0, k)) <= digits_value(t),
    decreases t.len() - k,
{
    if k == t.len() {
        assert(t.subrange(0, k) =~= t);
    } else {
        lemma_digits_prefix(t, k + 1);
        assert(t.subrange(0, k + 1) =~= t.subrange(0, k).push(t[k]));
        lemma_digits_push(t.subrange(0, k), t[k]);
    }
}

/// Whether the bytes of `s` in `from..to` are all digits.
pub fn digits_only(s: &[u8], from: usize, to: usize) -> (r: bool)
    requires
        from <= to <= s@.len(),
    ensures
        r == all_digits(s@.subrange(from as int, to as int)),
{
    let mut i: usize = from;
    while i < to
        invariant
            from <= i <= to <= s@.len(),
            forall|j: int| from <= j < i ==> is_digit(#[trigger] s@[j]),
        decreases to - i,
    {
        if !digit(s[i]) {
            assert(!is_digit(s@.subrange(from as int, to as int)[i - from]));
            return false;
        }
        i += 1;
    }
    assert forall|j: int| 0 <= j < to - from implies is_digit(
        #[trigger] s@.subrange(from as int, to as int)[j],
    ) by {
        assert(is_digit(s@[from + j]));
    }
    true
}

/// Reads the digits of `s` in `from..to`, leaving out the byte at `skip` if
/// it lies in that range.  Nothing is returned when the value exceeds 64
/// bits.
pub fn read_digits(s: &[u8], from: usize, to: usize, skip: usize) -> (r: Option<u64>)
    requires
        from <= to <= s@.len(),
        from <= skip,
        all_digits(stretch(s@, from as int, to as int, skip as int)),
    ensures
        match r {
            Some(v) => v == digits_value(stretch(s@, from as int, to as int, skip as int)),
            None => digits_value(stretch(s@, from as int, to as int, skip as int)) > u64::MAX,
        },
{
    let ghost whole = stretch(s@, from as int, to as int, skip as int);
    let mut acc: u64 = 0;
    let mut i: usize = from;
    while i < to
        invariant
            from <= i <= to <= s@.len(),
            from <= skip,
            whole == stretch(s@, from as int, to as int, skip as int),
            all_digits(whole),
            acc == digits_value(stretch(s@, from as int, i as int, skip as int)),
        decreases to - i,
    {
        let ghost before = stretch(s@, from as int, i as int, skip as int);
        let ghost after = stretch(s@, from as int, i + 1, skip as int);
        if i != skip {
            let b = s[i];
            proof {
                assert(after =~= before.push(b));
                lemma_digits_push(before, b);
                assert(after =~= whole.subrange(0, after.len() as int));
                lemma_digits_prefix(whole, after.len() as int);
                assert(is_digit(whole[after.len() - 1]));
                assert(whole[after.len() - 1] == b);
            }
            let d: u64 = (b - ZERO) as u64;
            if acc > (u64::MAX - d) / 10 {
                return None;
            }
            acc = acc * 10 + d;
        } else {
            assert(after =~= before);
        }
        i += 1;
    }
    Some(acc)
}

/// The bytes of `s` in `from..to` without the one at `skip`.
pub open spec fn stretch(s: Seq<u8>, from: int, to: int, skip: int) -> Seq<u8> {
    if from <= skip < to {
        s.subrange(from, to).remove(skip - from)
    } else {
        s.subrange(from, to)
    }
}

impl Decimal {
    /// Reads the decimal numeral that the bytes of `s` in `from..to` spell.
    pub fn parse(s: &[u8], from: usize, to: usize) -> (r: Result<Decimal, ScanError>)
        requires
            from <= to <= s@.len(),
        ensures
            r == decimal_of(s@.subrange(from as int, to as int)),
    {
        let ghost t = s@.subrange(from as int, to as int);
        let found = seek(s, from, Mark::Byte(POINT));
        let point = if found < to {
            found
        } else {
            to
        };
        proof {
            lemma_first_at(s@, from as int, Mark::Byte(POINT));
            lemma_first_at(t, 0, Mark::Byte(POINT));
            let p = first_at(t, 0, Mark::Byte(POINT));
            if p < t.len() {
                assert(t[p] == s@[from + p]);
            }
            if point < to {
                assert(t[point - from] == s@[point as int]);
            }
            assert forall|i: int| 0 <= i < t.len() implies t[i] == s@[from + i] by {}
            assert(p == point - from);
            assert(decimal_digits(t) =~= stretch(s@, from as int, to as int, point as int));
        }
        let count = if point < to {
            to - from - 1
        } else {
            to - from
        };
        if count == 0 {
            return Err(ScanError::Grammar);
        }
        if !digits_only(s, from, point) {
            proof {
                let head = s@.subrange(from as int, point as int);
                let k = choose|k: int| 0 <= k < head.len() && !is_digit(#[trigger] head[k]);
                assert(decimal_digits(t)[k] == head[k]);
            }
            return Err(ScanError::Grammar);
        }
        if point < to && !digits_only(s, point + 1, to) {
            proof {
                let rest = s@.subrange(point + 1, to as int);
                let k = choose|k: int| 0 <= k < rest.len() && !is_digit(#[trigger] rest[k]);
                assert(decimal_digits(t)[point - from + k] == rest[k]);
            }
            return Err(ScanError::Grammar);
        }
        proof {
            let head = s@.subrange(from as int, point as int);
            assert forall|i: int| 0 <= i < decimal_digits(t).len() implies is_digit(
                #[trigger] decimal_digits(t)[i],
            ) by {
                if i < point - from {
                    assert(decimal_digits(t)[i] == head[i]);
                } else {
                    let rest = s@.subrange(point + 1, to as int);
                    assert(decimal_digits(t)[i] == rest[i - (point - from)]);
                }
            }
        }
        match read_digits(s, from, to, point) {
            Some(digits) => Ok(
                Decimal {
                    digits,
                    scale: if point < to {
                        to - point - 1
                    } else {
                        0
                    },
                },
            ),
            None => Err(ScanError::OutOfRange),
        }
    }
}

/// Reads the integer numeral that the bytes of `s` in `from..to` spell, if
/// its value lies in `low..=high`.
pub fn parse_integer(s: &[u8], from: usize, to: usize, low: i64, high: i64) -> (r: Result<
    i64,
    ScanError,
>)
    requires
        from <= to <= s@.len(),
    ensures
        match integer_of(s@.subrange(from as int, to as int), low as int, high as int) {
            Ok(v) => r == Ok::<i64, ScanError>(v as i64),
            Err(e) => r == Err::<i64, ScanError>(e),
        },
{
    let ghost t = s@.subrange(from as int, to as int);
    let signed = from < to && (s[from] == HYPHEN || s[from] == PLUS);
    let negative = from < to && s[from] == HYPHEN;
    let start = if signed {
        from + 1
    } else {
        from
    };
    proof {
        if from < to {
            assert(t[0] == s@[from as int]);
        }
        assert(unsigned_part(t) =~= s@.subrange(start as int, to as int));
        assert(stretch(s@, start as int, to as int, to as int) == s@.subrange(start as int, to as int));
    }
    if start == to || !digits_only(s, start, to) {
        return Err(ScanError::Grammar);
    }
    match read_digits(s, start, to, to) {
        None => Err(ScanError::OutOfRange),
        Some(magnitude) => {
            let v: i128 = if negative {
                -(magnitude as i128)
            } else {
                magnitude as i128
            };
            if v < low as i128 || v > high as i128 {
                Err(ScanError::OutOfRange)
            } else {
                Ok(v as i64)
            }
        },
    }
}

/// The character that writes the digit `d`.
pub open spec fn digit_char(d: int) -> char {
    if d == 0 {
        '0'
    } else if d == 1 {
        '1'
    } else if d == 2 {
        '2'
    } else if d == 3 {
        '3'
    } else if d == 4 {
        '4'
    } else if d == 5 {
        '5'
    } else if d == 6 {
        '6'
    } else if d == 7 {
        '7'
    } else if d == 8 {
        '8'
    } else {
        '9'
    }
}

/// The decimal numeral of `n`, without leading zeros.
pub open spec fn natural_text(n: nat) -> Seq<char>
    decreases n,
{
    if n < 10 {
        seq![digit_char(n as int)]
    } else {
        natural_text(n / 10).push(digit_char((n % 10) as int))
    }
}

/// The decimal numeral of `v`, with a minus sign if it is negative.
pub open spec fn integer_text(v: int) -> Seq<char> {
    if v < 0 {
        seq!['-'] + natural_text((-v) as nat)
    } else {
        natural_text(v as nat)
    }
}

/// The text of one digit.
fn digit_str(d: u64) -> (r: &'static str)
    requires
        d < 10,
    ensures
        r@ == seq![digit_char(d as int)],
{
    proof {
        reveal_strlit("0");
        reveal_strlit("1");
        reveal_strlit("2");
        reveal_strlit("3");
        reveal_strlit("4");
        reveal_strlit("5");
        reveal_strlit("6");
        reveal_strlit("7");
        reveal_strlit("8");
        reveal_strlit("9");
    }
    let r = if d == 0 {
        "0"
    } else if d == 1 {
        "1"
    } else if d == 2 {
        "2"
    } else if d == 3 {
        "3"
    } else if d == 4 {
        "4"
    } else if d == 5 {
        "5"
    } else if d == 6 {
        "6"
    } else if d == 7 {
        "7"
    } else if d == 8 {
        "8"
    } else {
        "9"
    };
    assert(r@ =~= seq![digit_char(d as int)]);
    r
}

/// Writes the decimal numeral of `n` behind `out`.
pub fn push_natural(out: &mut String, n: u64)
    ensures
        final(out)@ == old(out)@ + natural_text(n as nat),
    decreases n,
{
    if n >= 10 {
        push_natural(out, n / 10);
    }
    out.append(digit_str(n % 10));
    assert(out@ =~= old(out)@ + natural_text(n as nat));
}

/// Writes the decimal numeral of `v` behind `out`.
pub fn push_integer(out: &mut String, v: i64)
    ensures
        final(out)@ == old(out)@ + integer_text(v as int),
{
    if v < 0 {
        proof {
            reveal_strlit("-");
        }
        out.append("-");
        let magnitude: u64 = (-(v as i128)) as u64;
        push_natural(out, magnitude);
        assert(out@ =~= old(out)@ + integer_text(v as int));
    } else {
        push_natural(out, v as u64);
    }
}

/// The decimal numeral of `v`.
pub fn integer_string(v: i64) -> (r: String)
    ensures
        r@ == integer_text(v as int),
{
    let mut out = String::new();
    push_integer(&mut out, v);
    assert(out@ =~= integer_text(v as int));
    out
}

} // verus!
