//! The exchange's account side: error documents, balances and lot sizes,
//! symbol names, and the addresses and signatures of requests.

use super::Interval;
use crate::finder::{
    first_at, key_search, lemma_first_at, lemma_first_at_is, pair_search, seek, spells, Haystack,
    Mark, ScanError, CLOSE_CURLY, COLON, COMMA, POINT, QUOTE,
};
use crate::number::{
    decimal_of, integer_of, integer_text, is_digit_or_point, natural_text, parse_integer,
    push_integer, push_natural, Decimal,
};
use hmac::{Hmac, Mac, NewMac};
use sha2::Sha256;
use vstd::prelude::*;
use vstd::slice::{slice_subrange, slice_to_vec};
use vstd::std_specs::cmp::PartialEqSpecImpl;
use vstd::string::{StringExecFns, StringSliceAdditionalSpecFns};
use vstd::utf8::{decode_utf8, encode_utf8, is_char_boundary, valid_utf8};

verus! {

/// What the exchange answers in place of a payload: a numeric code and a
/// message.  Two errors are equal when their codes are.
#[derive(Debug)]
pub struct Error {
    pub code: i32,
    pub message: String,
}

impl PartialEq for Error {
    fn eq(&self, other: &Self) -> (r: bool) {
        self.code == other.code
    }
}

impl PartialEqSpecImpl for Error {
    open spec fn obeys_eq_spec() -> bool {
        true
    }

    open spec fn eq_spec(&self, other: &Self) -> bool {
        self.code == other.code
    }
}

/// The code and the message that an error document gives, read field by
/// field from `from` on, with `code` and `message` standing for what was
/// read before.
///
/// A field is a quoted name, a colon and a value that runs up to the next
/// comma or closing brace.  Under the name `code` the value is an integer
/// numeral; under the name `msg` it is a text in UTF-8 between two bytes that
/// are dropped.  Any other name fails the document.  What follows the last
/// complete field is ignored.
pub open spec fn error_fields(s: Seq<u8>, from: int, code: int, message: Seq<char>) -> Result<
    (int, Seq<char>),
    ScanError,
>
    decreases s.len() - from,
    via error_fields_decreases
{
    let open = first_at(s, from, Mark::Byte(QUOTE));
    let close = first_at(s, open + 1, Mark::Byte(QUOTE));
    let colon = first_at(s, close + 1, Mark::Byte(COLON));
    let end = first_at(s, colon + 1, Mark::Either(COMMA, CLOSE_CURLY));
    let name = s.subrange(open + 1, close);
    let value = s.subrange(colon + 1, end);
    if end >= s.len() {
        Ok((code, message))
    } else if name == "code".spec_bytes() {
        match integer_of(value, i32::MIN as int, i32::MAX as int) {
            Ok(v) => error_fields(s, end + 1, v, message),
            Err(e) => Err(e),
        }
    } else if name == "msg".spec_bytes() {
        if value.len() >= 2 && valid_utf8(value.subrange(1, value.len() - 1)) {
            error_fields(s, end + 1, code, decode_utf8(value.subrange(1, value.len() - 1)))
        } else {
            Err(ScanError::Grammar)
        }
    } else {
        Err(ScanError::Grammar)
    }
}

#[via_fn]
proof fn error_fields_decreases(s: Seq<u8>, from: int, code: int, message: Seq<char>) {
    lemma_field_bounds(s, from);
}

/// The four marks of a field come in order and stay in the buffer.
pub proof fn lemma_field_bounds(s: Seq<u8>, from: int)
    ensures
        ({
            let open = first_at(s, from, Mark::Byte(QUOTE));
            let close = first_at(s, open + 1, Mark::Byte(QUOTE));
            let colon = first_at(s, close + 1, Mark::Byte(COLON));
            let end = first_at(s, colon + 1, Mark::Either(COMMA, CLOSE_CURLY));
            end < s.len() ==> from <= open < close < colon < end
        }),
{
    let open = first_at(s, from, Mark::Byte(QUOTE));
    let close = first_at(s, open + 1, Mark::Byte(QUOTE));
    let colon = first_at(s, close + 1, Mark::Byte(COLON));
    let end = first_at(s, colon + 1, Mark::Either(COMMA, CLOSE_CURLY));
    if from <= s.len() {
        lemma_first_at(s, from, Mark::Byte(QUOTE));
    }
    if open + 1 <= s.len() {
        lemma_first_at(s, open + 1, Mark::Byte(QUOTE));
    }
    if close + 1 <= s.len() {
        lemma_first_at(s, close + 1, Mark::Byte(COLON));
    }
    if colon + 1 <= s.len() {
        lemma_first_at(s, colon + 1, Mark::Either(COMMA, CLOSE_CURLY));
    }
}

/// `String::from_utf8` of std: the text that the bytes encode, or nothing
/// where they are no UTF-8.  Validity and the decoded text are stated with
/// vstd's model of UTF-8.
#[verifier::external_body]
pub(crate) fn text_from_utf8(bytes: Vec<u8>) -> (r: Option<String>)
    ensures
        r.is_some() <==> valid_utf8(bytes@),
        r matches Some(text) ==> text@ == decode_utf8(bytes@),
{
    String::from_utf8(bytes).ok()
}

impl Error {
    /// Reads an error document.  A field that is missing leaves the code at
    /// zero or the message empty.
    pub fn from_json(slice: &[u8]) -> (r: Result<Self, ScanError>)
        ensures
            match error_fields(slice@, 0, 0, Seq::empty()) {
                Ok((code, message)) => r matches Ok(error) && error.code == code && error.message@
                    == message,
                Err(e) => r matches Err(x) && x == e,
            },
    {
        let code_word = "code".as_bytes();
        let msg_word = "msg".as_bytes();
        let mut code: i32 = 0;
        let mut message = String::new();
        let mut pos: usize = 0;
        loop
            invariant
                pos <= slice@.len(),
                code_word@ == "code".spec_bytes(),
                msg_word@ == "msg".spec_bytes(),
                error_fields(slice@, 0, 0, Seq::empty()) == error_fields(
                    slice@,
                    pos as int,
                    code as int,
                    message@,
                ),
            decreases slice@.len() - pos,
        {
            proof {
                lemma_field_bounds(slice@, pos as int);
            }
            let open = seek(slice, pos, Mark::Byte(QUOTE));
            if open >= slice.len() {
                return Ok(Error { code, message });
            }
            let close = seek(slice, open + 1, Mark::Byte(QUOTE));
            if close >= slice.len() {
                return Ok(Error { code, message });
            }
            let colon = seek(slice, close + 1, Mark::Byte(COLON));
            if colon >= slice.len() {
                return Ok(Error { code, message });
            }
            let end = seek(slice, colon + 1, Mark::Either(COMMA, CLOSE_CURLY));
            if end >= slice.len() {
                return Ok(Error { code, message });
            }
            if spells(slice, open + 1, close, code_word) {
                match parse_integer(slice, colon + 1, end, i32::MIN as i64, i32::MAX as i64) {
                    Ok(v) => {
                        code = v as i32;
                    },
                    Err(e) => {
                        return Err(e);
                    },
                }
            } else if spells(slice, open + 1, close, msg_word) {
                if end - colon < 3 {
                    return Err(ScanError::Grammar);
                }
                let inner = slice_to_vec(slice_subrange(slice, colon + 2, end - 1));
                assert(inner@ =~= slice@.subrange(colon + 1, end as int).subrange(
                    1,
                    end - colon - 2,
                ));
                match text_from_utf8(inner) {
                    Some(text) => {
                        message = text;
                    },
                    None => {
                        return Err(ScanError::Grammar);
                    },
                }
            } else {
                return Err(ScanError::Grammar);
            }
            pos = end + 1;
        }
    }
}

/// The digit one.
pub const ONE: u8 = 0x31;

/// The digits and points among the bytes between the next two quotes at or
/// after `from`; with one quote only, among the bytes behind it.
pub open spec fn quoted_digits(s: Seq<u8>, from: int) -> Seq<u8> {
    let open = first_at(s, from, Mark::Byte(QUOTE));
    let close = first_at(s, open + 1, Mark::Byte(QUOTE));
    if open < s.len() {
        s.subrange(open + 1, close).filter(|b: u8| is_digit_or_point(b))
    } else {
        Seq::empty()
    }
}

/// The free balance of `asset` in an account document: the numeral under
/// `free` in the object of `balances` whose `asset` is the one asked for.
pub open spec fn free_balance(s: Seq<u8>, asset: Seq<u8>) -> Result<Decimal, ScanError> {
    match key_search(s, 0, "balances".spec_bytes()) {
        Err(e) => Err(e),
        Ok(list) => match pair_search(s, list, "asset".spec_bytes(), asset) {
            Err(e) => Err(e),
            Ok(entry) => match key_search(s, entry, "free".spec_bytes()) {
                Err(e) => Err(e),
                Ok(value) => decimal_of(quoted_digits(s, value)),
            },
        },
    }
}

/// How many decimal places a step size has, read from `from` on: none where
/// a `1` comes before any point; behind a point, the places up to and
/// including the first `1`, or all bytes that are left where there is no `1`.
/// A comma before either is a grammar error.
pub open spec fn step_places(s: Seq<u8>, from: int) -> Result<int, ScanError> {
    let mark = first_at(s, from, Mark::AnyOf(ONE, POINT, COMMA));
    let one = first_at(s, mark + 1, Mark::Byte(ONE));
    if mark >= s.len() {
        Err(ScanError::EndOfInput)
    } else if s[mark] == ONE {
        Ok(0)
    } else if s[mark] == COMMA {
        Err(ScanError::Grammar)
    } else if one < s.len() {
        Ok(one - mark)
    } else {
        Ok(s.len() - mark - 1)
    }
}

/// A step size with its first `1` behind the point has as many places as the
/// `1` stands behind the point: `0.00100000` has three.
pub proof fn lemma_step_with_fraction(s: Seq<u8>, from: int, point: int, one: int)
    requires
        from <= point < one < s.len(),
        s[point] == POINT,
        s[one] == ONE,
        forall|i: int| from <= i < point ==> #[trigger] s[i] != ONE && s[i] != POINT && s[i] != COMMA,
        forall|i: int| point < i < one ==> #[trigger] s[i] != ONE,
    ensures
        step_places(s, from) == Ok::<int, ScanError>(one - point),
{
    lemma_first_at_is(s, from, Mark::AnyOf(ONE, POINT, COMMA), point);
    lemma_first_at_is(s, point + 1, Mark::Byte(ONE), one);
}

/// A step size with a `1` before any point has no places: `1.00000000` has
/// none.
pub proof fn lemma_whole_step(s: Seq<u8>, from: int, one: int)
    requires
        from <= one < s.len(),
        s[one] == ONE,
        forall|i: int| from <= i < one ==> #[trigger] s[i] != ONE && s[i] != POINT && s[i] != COMMA,
    ensures
        step_places(s, from) == Ok::<int, ScanError>(0),
{
    lemma_first_at_is(s, from, Mark::AnyOf(ONE, POINT, COMMA), one);
}

/// The lot-size precision of `symbol` in an exchange-information document:
/// the decimal places of `stepSize` under the `LOT_SIZE` filter of the symbol.
pub open spec fn lot_precision(s: Seq<u8>, symbol: Seq<u8>) -> Result<int, ScanError> {
    match key_search(s, 0, "symbols".spec_bytes()) {
        Err(e) => Err(e),
        Ok(list) => match pair_search(s, list, "symbol".spec_bytes(), symbol) {
            Err(e) => Err(e),
            Ok(entry) => match key_search(s, entry, "filters".spec_bytes()) {
                Err(e) => Err(e),
                Ok(filters) => match pair_search(
                    s,
                    filters,
                    "filterType".spec_bytes(),
                    "LOT_SIZE".spec_bytes(),
                ) {
                    Err(e) => Err(e),
                    Ok(filter) => match key_search(s, filter, "stepSize".spec_bytes()) {
                        Err(e) => Err(e),
                        Ok(value) => step_places(s, value),
                    },
                },
            },
        },
    }
}

/// Collects the digits and points of `s` in `from..to`.
fn digits_and_points(s: &[u8], from: usize, to: usize) -> (r: Vec<u8>)
    requires
        from <= to <= s@.len(),
    ensures
        r@ == s@.subrange(from as int, to as int).filter(|b: u8| is_digit_or_point(b)),
{
    let ghost keep = |b: u8| is_digit_or_point(b);
    let mut out: Vec<u8> = Vec::new();
    let mut i: usize = from;
    proof {
        assert(s@.subrange(from as int, from as int) =~= Seq::<u8>::empty());
        Seq::<u8>::empty().lemma_filter_len(keep);
    }
    while i < to
        invariant
            from <= i <= to <= s@.len(),
            keep == (|b: u8| is_digit_or_point(b)),
            out@ == s@.subrange(from as int, i as int).filter(keep),
        decreases to - i,
    {
        let b = s[i];
        proof {
            let before = s@.subrange(from as int, i as int);
            assert(s@.subrange(from as int, i + 1) =~= before.push(b));
            lemma_filter_push(before, b, keep);
        }
        if crate::finder::digit(b) || b == POINT {
            out.push(b);
        }
        i += 1;
    }
    out
}

/// Filtering a sequence with one more element keeps or drops that element.
pub proof fn lemma_filter_push(s: Seq<u8>, b: u8, keep: spec_fn(u8) -> bool)
    ensures
        s.push(b).filter(keep) == if keep(b) {
            s.filter(keep).push(b)
        } else {
            s.filter(keep)
        },
{
    reveal(Seq::filter);
    assert(s.push(b).drop_last() =~= s);
}

/// Reads the free balance of `asset` out of an account document.
pub fn balance_of(payload: &[u8], asset: &str) -> (r: Result<Decimal, ScanError>)
    ensures
        r == free_balance(payload@, asset.spec_bytes()),
{
    let mut hay = Haystack::new(payload);
    match hay.find_key("balances") {
        Err(e) => {
            return Err(e);
        },
        Ok(_) => {},
    }
    match hay.find_pair("asset", asset) {
        Err(e) => {
            return Err(e);
        },
        Ok(_) => {},
    }
    match hay.find_key("free") {
        Err(e) => {
            return Err(e);
        },
        Ok(_) => {},
    }
    proof {
        hay.lemma_cursor_in_buffer();
    }
    let open = seek(payload, hay.position(), Mark::Byte(QUOTE));
    if open >= payload.len() {
        proof {
            assert(decimal_of(Seq::<u8>::empty()) == Err::<Decimal, ScanError>(ScanError::Grammar));
        }
        return Err(ScanError::Grammar);
    }
    let close = seek(payload, open + 1, Mark::Byte(QUOTE));
    let text = digits_and_points(payload, open + 1, close);
    assert(text@.subrange(0, text@.len() as int) =~= text@);
    Decimal::parse(text.as_slice(), 0, text.len())
}

/// Reads the lot-size precision of `symbol` out of an exchange-information
/// document.
pub fn precision_of(payload: &[u8], symbol: &str) -> (r: Result<usize, ScanError>)
    ensures
        match lot_precision(payload@, symbol.spec_bytes()) {
            Ok(places) => r == Ok::<usize, ScanError>(places as usize),
            Err(e) => r == Err::<usize, ScanError>(e),
        },
{
    let mut hay = Haystack::new(payload);
    match hay.find_key("symbols") {
        Err(e) => {
            return Err(e);
        },
        Ok(_) => {},
    }
    match hay.find_pair("symbol", symbol) {
        Err(e) => {
            return Err(e);
        },
        Ok(_) => {},
    }
    match hay.find_key("filters") {
        Err(e) => {
            return Err(e);
        },
        Ok(_) => {},
    }
    match hay.find_pair("filterType", "LOT_SIZE") {
        Err(e) => {
            return Err(e);
        },
        Ok(_) => {},
    }
    match hay.find_key("stepSize") {
        Err(e) => {
            return Err(e);
        },
        Ok(_) => {},
    }
    proof {
        hay.lemma_cursor_in_buffer();
    }
    let mark = seek(payload, hay.position(), Mark::AnyOf(ONE, POINT, COMMA));
    if mark >= payload.len() {
        return Err(ScanError::EndOfInput);
    }
    if payload[mark] == ONE {
        return Ok(0);
    }
    if payload[mark] == COMMA {
        return Err(ScanError::Grammar);
    }
    let one = seek(payload, mark + 1, Mark::Byte(ONE));
    if one < payload.len() {
        Ok(one - mark)
    } else {
        Ok(payload.len() - mark - 1)
    }
}

/// A named holding with its balance, read exactly.
#[derive(Debug)]
pub struct Asset {
    pub name: String,
    pub balance: Decimal,
}

impl Asset {
    /// An asset of this name with this balance.
    pub fn new(name: &str, balance: Decimal) -> (r: Self)
        ensures
            r.name@ == name@,
            r.balance == balance,
    {
        Self { name: String::from_str(name), balance }
    }
}

/// The name of a trading pair: the base asset's name with the quote asset's
/// name behind it.
#[derive(Debug)]
pub struct SymbolString {
    inner: String,
    base: String,
    quote: String,
}

/// The name of a pair as mathematics sees it: the whole name and its two
/// parts.
pub struct PairName {
    pub whole: Seq<char>,
    pub base: Seq<char>,
    pub quote: Seq<char>,
}

impl View for SymbolString {
    type V = PairName;

    closed spec fn view(&self) -> PairName {
        PairName { whole: self.inner@, base: self.base@, quote: self.quote@ }
    }
}

impl SymbolString {
    /// The whole name.
    pub open spec fn whole_name(&self) -> Seq<char> {
        self@.whole
    }

    /// The name of the base asset.
    pub open spec fn base_name(&self) -> Seq<char> {
        self@.base
    }

    /// The name of the quote asset.
    pub open spec fn quote_name(&self) -> Seq<char> {
        self@.quote
    }

    /// The whole name is the base with the quote behind it.
    pub open spec fn wf(&self) -> bool {
        self@.whole == self@.base + self@.quote
    }

    /// The name of the pair of `base` and `quote`.
    pub fn new(base: &str, quote: &str) -> (r: Self)
        ensures
            r.wf(),
            r.base_name() == base@,
            r.quote_name() == quote@,
            r.whole_name() == base@ + quote@,
    {
        let mut inner = String::from_str(base);
        inner.append(quote);
        Self { inner, base: String::from_str(base), quote: String::from_str(quote) }
    }

    /// Splits a whole name behind its first `mid` bytes, which must end on a
    /// character.
    pub fn from_raw_parts(inner: String, mid: usize) -> (r: Self)
        requires
            is_char_boundary(encode_utf8(inner@), mid as int),
        ensures
            r.wf(),
            r.whole_name() == inner@,
            r.base_name() == decode_utf8(encode_utf8(inner@).subrange(0, mid as int)),
            r.quote_name() == decode_utf8(
                encode_utf8(inner@).subrange(mid as int, encode_utf8(inner@).len() as int),
            ),
    {
        broadcast use vstd::utf8::group_utf8_lib;

        let (base, quote) = inner.as_str().split_at(mid);
        let base = String::from_str(base);
        let quote = String::from_str(quote);
        proof {
            let bytes = encode_utf8(inner@);
            assert(valid_utf8(bytes));
            assert(decode_utf8(bytes) == inner@);
            assert(decode_utf8(bytes) =~= decode_utf8(bytes.subrange(0, mid as int)) + decode_utf8(
                bytes.subrange(mid as int, bytes.len() as int),
            ));
        }
        Self { inner, base, quote }
    }

    /// The name of the base asset.
    pub fn base(&self) -> (r: &str)
        ensures
            r@ == self.base_name(),
    {
        self.base.as_str()
    }

    /// The name of the quote asset.
    pub fn quote(&self) -> (r: &str)
        ensures
            r@ == self.quote_name(),
    {
        self.quote.as_str()
    }

    /// The whole name.
    pub fn as_str(&self) -> (r: &str)
        ensures
            r@ == self.whole_name(),
    {
        self.inner.as_str()
    }
}

impl PartialEq for SymbolString {
    fn eq(&self, other: &Self) -> (r: bool) {
        self.inner == other.inner
    }
}

impl PartialEqSpecImpl for SymbolString {
    open spec fn obeys_eq_spec() -> bool {
        true
    }

    open spec fn eq_spec(&self, other: &Self) -> bool {
        self.whole_name() == other.whole_name()
    }
}

/// The HMAC-SHA256 tag of `message` under `key`.
pub uninterp spec fn hmac_sha256_tag(key: Seq<u8>, message: Seq<u8>) -> Seq<u8>;

/// `Hmac::<Sha256>` of the hmac crate, from `new_varkey` through `update` to
/// `finalize`: the tag of the message under the key.  The tag is a function of
/// the two alone, and the crate takes a key of any length.
#[verifier::external_body]
fn hmac_sha256(key: &[u8], message: &[u8]) -> (r: Option<Vec<u8>>)
    ensures
        r.is_some(),
        r matches Some(tag) ==> tag@ == hmac_sha256_tag(key@, message@),
{
    match Hmac::<Sha256>::new_varkey(key) {
        Ok(mut mac) => {
            mac.update(message);
            Some(mac.finalize().into_bytes().to_vec())
        },
        Err(_) => None,
    }
}

/// The character that writes the hexadecimal digit `d` in lower case.
pub open spec fn hex_char(d: int) -> char {
    if d == 0 {
        '0'
    } else if d == 1 {
        '1'
    } else if d == 2 {
        '2'
    } else if d == 3 {
        '3'
    } else if d == 4 {
        '4'
    } else if d == 5 {
        '5'
    } else if d == 6 {
        '6'
    } else if d == 7 {
        '7'
    } else if d == 8 {
        '8'
    } else if d == 9 {
        '9'
    } else if d == 10 {
        'a'
    } else if d == 11 {
        'b'
    } else if d == 12 {
        'c'
    } else if d == 13 {
        'd'
    } else if d == 14 {
        'e'
    } else {
        'f'
    }
}

/// Two hexadecimal digits for each byte, in lower case.
pub open spec fn hex_text(bytes: Seq<u8>) -> Seq<char>
    decreases bytes.len(),
{
    if bytes.len() == 0 {
        Seq::empty()
    } else {
        hex_text(bytes.drop_last()).push(hex_char(bytes.last() as int / 16)).push(
            hex_char(bytes.last() as int % 16),
        )
    }
}

/// The text of one hexadecimal digit.
fn hex_str(d: u8) -> (r: &'static str)
    requires
        d < 16,
    ensures
        r@ == seq![hex_char(d as int)],
{
    proof {
        reveal_strlit("0");
        reveal_strlit("1");
        reveal_strlit("2");
        reveal_strlit("3");
        reveal_strlit("4");
        reveal_strlit("5");
        reveal_strlit("6");
        reveal_strlit("7");
        reveal_strlit("8");
        reveal_strlit("9");
        reveal_strlit("a");
        reveal_strlit("b");
        reveal_strlit("c");
        reveal_strlit("d");
        reveal_strlit("e");
        reveal_strlit("f");
    }
    let r = if d == 0 {
        "0"
    } else if d == 1 {
        "1"
    } else if d == 2 {
        "2"
    } else if d == 3 {
        "3"
    } else if d == 4 {
        "4"
    } else if d == 5 {
        "5"
    } else if d == 6 {
        "6"
    } else if d == 7 {
        "7"
    } else if d == 8 {
        "8"
    } else if d == 9 {
        "9"
    } else if d == 10 {
        "a"
    } else if d == 11 {
        "b"
    } else if d == 12 {
        "c"
    } else if d == 13 {
        "d"
    } else if d == 14 {
        "e"
    } else {
        "f"
    };
    assert(r@ =~= seq![hex_char(d as int)]);
    r
}

/// Writes bytes in hexadecimal.
pub fn to_hex(bytes: &[u8]) -> (r: String)
    ensures
        r@ == hex_text(bytes@),
{
    let mut out = String::new();
    let mut i: usize = 0;
    assert(bytes@.subrange(0, 0) =~= Seq::<u8>::empty());
    while i < bytes.len()
        invariant
            i <= bytes@.len(),
            out@ == hex_text(bytes@.subrange(0, i as int)),
        decreases bytes@.len() - i,
    {
        let b = bytes[i];
        proof {
            let longer = bytes@.subrange(0, i + 1);
            assert(longer.drop_last() =~= bytes@.subrange(0, i as int));
            assert(longer.last() == b);
        }
        let ghost before = out@;
        out.append(hex_str(b / 16));
        out.append(hex_str(b % 16));
        assert(out@ =~= before.push(hex_char(b as int / 16)).push(hex_char(b as int % 16)));
        i += 1;
    }
    assert(bytes@.subrange(0, bytes@.len() as int) =~= bytes@);
    out
}

/// The signature of a query: its HMAC-SHA256 tag under the secret key, in
/// hexadecimal.
pub open spec fn signature_text(secret_key: Seq<u8>, parameters: Seq<u8>) -> Seq<char> {
    hex_text(hmac_sha256_tag(secret_key, parameters))
}

/// Signs the exact query string with the account's secret key.
pub fn signed_endpoint(secret_key: &str, parameters: &str) -> (r: String)
    ensures
        r@ == signature_text(secret_key.spec_bytes(), parameters.spec_bytes()),
{
    let tag = hmac_sha256(secret_key.as_bytes(), parameters.as_bytes()).unwrap();
    to_hex(tag.as_slice())
}

/// The query of a candle request: the symbol and the interval, then the
/// start time, the end time and the cap on the count, each where it is given.
pub open spec fn klines_text(
    symbol: Seq<char>,
    interval: Interval,
    start_time: Option<i64>,
    end_time: Option<i64>,
    limit: Option<u32>,
) -> Seq<char> {
    "https://api.binance.com/api/v3/klines?symbol="@ + symbol + "&interval="@
        + interval.label_text() + (match start_time {
        Some(time) => "&startTime="@ + integer_text(time as int),
        None => Seq::empty(),
    }) + (match end_time {
        Some(time) => "&endTime="@ + integer_text(time as int),
        None => Seq::empty(),
    }) + (match limit {
        Some(limit) => "&limit="@ + natural_text(limit as nat),
        None => Seq::empty(),
    })
}

/// Writes the address of a candle request.
pub fn klines_url(
    symbol: &str,
    interval: Interval,
    start_time: Option<i64>,
    end_time: Option<i64>,
    limit: Option<u32>,
) -> (r: String)
    ensures
        r@ == klines_text(symbol@, interval, start_time, end_time, limit),
{
    let mut url = String::from_str("https://api.binance.com/api/v3/klines?symbol=");
    url.append(symbol);
    url.append("&interval=");
    url.append(interval.label().as_str());
    let ghost head = url@;
    if let Some(time) = start_time {
        url.append("&startTime=");
        push_integer(&mut url, time);
    }
    let ghost with_start = url@;
    if let Some(time) = end_time {
        url.append("&endTime=");
        push_integer(&mut url, time);
    }
    let ghost with_end = url@;
    if let Some(limit) = limit {
        url.append("&limit=");
        push_natural(&mut url, limit as u64);
    }
    proof {
        assert(with_start =~= head + (match start_time {
            Some(time) => "&startTime="@ + integer_text(time as int),
            None => Seq::empty(),
        }));
        assert(with_end =~= with_start + (match end_time {
            Some(time) => "&endTime="@ + integer_text(time as int),
            None => Seq::empty(),
        }));
        assert(url@ =~= with_end + (match limit {
            Some(limit) => "&limit="@ + natural_text(limit as nat),
            None => Seq::empty(),
        }));
    }
    url
}

/// The parameters of a market order that spends `amount` of the quote asset.
pub open spec fn market_buy_text(symbol: Seq<char>, amount: Seq<char>, timestamp: i64) -> Seq<char> {
    "symbol="@ + symbol + "&side=BUY&type=MARKET&quoteOrderQty="@ + amount + "&timestamp="@
        + integer_text(timestamp as int)
}

/// The parameters of a market order that sells `quantity` of the base asset.
pub open spec fn market_sell_text(symbol: Seq<char>, quantity: Seq<char>, timestamp: i64) -> Seq<
    char,
> {
    "symbol="@ + symbol + "&side=SELL&type=MARKET&quantity="@ + quantity + "&timestamp="@
        + integer_text(timestamp as int)
}

/// Writes the parameters of a market buy.  The amount comes as it is to be
/// sent.
pub fn market_buy_parameters(symbol: &str, quote_order_quantity: &str, timestamp: i64) -> (r: String)
    ensures
        r@ == market_buy_text(symbol@, quote_order_quantity@, timestamp),
{
    let mut out = String::from_str("symbol=");
    out.append(symbol);
    out.append("&side=BUY&type=MARKET&quoteOrderQty=");
    out.append(quote_order_quantity);
    out.append("&timestamp=");
    push_integer(&mut out, timestamp);
    assert(out@ =~= market_buy_text(symbol@, quote_order_quantity@, timestamp));
    out
}

/// Writes the parameters of a market sell.  The quantity comes as it is to
/// be sent.
pub fn market_sell_parameters(symbol: &str, quantity: &str, timestamp: i64) -> (r: String)
    ensures
        r@ == market_sell_text(symbol@, quantity@, timestamp),
{
    let mut out = String::from_str("symbol=");
    out.append(symbol);
    out.append("&side=SELL&type=MARKET&quantity=");
    out.append(quantity);
    out.append("&timestamp=");
    push_integer(&mut out, timestamp);
    assert(out@ =~= market_sell_text(symbol@, quantity@, timestamp));
    out
}

/// Writes the parameters of an account request.
pub fn account_parameters(timestamp: i64) -> (r: String)
    ensures
        r@ == "timestamp="@ + integer_text(timestamp as int),
{
    let mut out = String::from_str("timestamp=");
    push_integer(&mut out, timestamp);
    out
}

/// The address of a signed request: the endpoint, the parameters and their
/// signature.
pub open spec fn signed_text(endpoint: Seq<char>, parameters: Seq<char>, signature: Seq<char>) -> Seq<
    char,
> {
    "https://api.binance.com"@ + endpoint + "?"@ + parameters + "&signature="@ + signature
}

/// Writes the address of a signed request to `endpoint`.
pub fn signed_url(endpoint: &str, parameters: &str, secret_key: &str) -> (r: String)
    ensures
        r@ == signed_text(
            endpoint@,
            parameters@,
            signature_text(secret_key.spec_bytes(), parameters.spec_bytes()),
        ),
{
    let signature = signed_endpoint(secret_key, parameters);
    let mut url = String::from_str("https://api.binance.com");
    url.append(endpoint);
    url.append("?");
    url.append(parameters);
    url.append("&signature=");
    url.append(signature.as_str());
    assert(url@ =~= signed_text(endpoint@, parameters@, signature@));
    url
}

} // verus!
