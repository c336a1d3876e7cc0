//! Error documents as they are written, and the proof that their two fields
//! are read alike in either order.

use super::binance::{error_fields, lemma_field_bounds};
use crate::finder::{
    first_at, is_digit, key_search, kind_of, lemma_first_at_is, value_end, Mark, ScanError, Value,
    CLOSE_CURLY, COLON, COMMA, OPEN_CURLY, QUOTE,
};
use crate::number::{integer_of, integer_value, is_integer, unsigned_part};
use vstd::prelude::*;
use vstd::string::StringSliceAdditionalSpecFns;
use vstd::utf8::{decode_utf8, valid_utf8};

verus! {

/// The bytes of the two field names.
pub proof fn lemma_field_names()
    ensures
        "code".spec_bytes() == seq![0x63u8, 0x6f, 0x64, 0x65],
        "msg".spec_bytes() == seq![0x6du8, 0x73, 0x67],
{
    broadcast use vstd::string::is_ascii_spec_bytes;

    reveal_strlit("code");
    reveal_strlit("msg");
    assert(vstd::string::is_ascii("code"));
    assert(vstd::string::is_ascii("msg"));
    assert("code".spec_bytes() =~= seq![0x63u8, 0x6f, 0x64, 0x65]);
    assert("msg".spec_bytes() =~= seq![0x6du8, 0x73, 0x67]);
}

/// An error document with the code before the message.
pub open spec fn code_then_message(code: Seq<u8>, message: Seq<u8>) -> Seq<u8> {
    seq![OPEN_CURLY, QUOTE] + "code".spec_bytes() + seq![QUOTE, COLON] + code + seq![COMMA, QUOTE]
        + "msg".spec_bytes() + seq![QUOTE, COLON, QUOTE] + message + seq![QUOTE, CLOSE_CURLY]
}

/// An error document with the message before the code.
pub open spec fn message_then_code(code: Seq<u8>, message: Seq<u8>) -> Seq<u8> {
    seq![OPEN_CURLY, QUOTE] + "msg".spec_bytes() + seq![QUOTE, COLON, QUOTE] + message + seq![
        QUOTE,
        COMMA,
        QUOTE,
    ] + "code".spec_bytes() + seq![QUOTE, COLON] + code + seq![CLOSE_CURLY]
}

/// Where the bytes of a document with the code first stand.
proof fn lemma_code_first_layout(code: Seq<u8>, message: Seq<u8>)
    ensures
        ({
            let s = code_then_message(code, message);
            let c = code.len() as int;
            let m = message.len() as int;
            &&& s.len() == 18 + c + m
            &&& s[0] == OPEN_CURLY
            &&& s[1] == QUOTE
            &&& s.subrange(2, 6) == "code".spec_bytes()
            &&& s[6] == QUOTE
            &&& s[7] == COLON
            &&& s.subrange(8, 8 + c) == code
            &&& s[8 + c] == COMMA
            &&& s[9 + c] == QUOTE
            &&& s.subrange(10 + c, 13 + c) == "msg".spec_bytes()
            &&& s[13 + c] == QUOTE
            &&& s[14 + c] == COLON
            &&& s[15 + c] == QUOTE
            &&& s.subrange(16 + c, 16 + c + m) == message
            &&& s[16 + c + m] == QUOTE
            &&& s[17 + c + m] == CLOSE_CURLY
        }),
{
    lemma_field_names();
    let s = code_then_message(code, message);
    let c = code.len() as int;
    let m = message.len() as int;
    let head = seq![OPEN_CURLY, QUOTE] + "code".spec_bytes() + seq![QUOTE, COLON] + code;
    let middle = head + seq![COMMA, QUOTE] + "msg".spec_bytes() + seq![QUOTE, COLON, QUOTE];
    assert(head.len() == 8 + c);
    assert(middle.len() == 16 + c);
    assert(s == middle + message + seq![QUOTE, CLOSE_CURLY]);
    assert(head.subrange(2, 6) =~= "code".spec_bytes());
    assert(head.subrange(8, 8 + c) =~= code);
    assert(middle.subrange(0, 8 + c) =~= head);
    assert(middle.subrange(10 + c, 13 + c) =~= "msg".spec_bytes());
    assert(s.subrange(0, 16 + c) =~= middle);
    assert(s.subrange(2, 6) =~= middle.subrange(2, 6));
    assert(middle.subrange(2, 6) =~= head.subrange(2, 6));
    assert(s.subrange(8, 8 + c) =~= middle.subrange(8, 8 + c));
    assert(middle.subrange(8, 8 + c) =~= head.subrange(8, 8 + c));
    assert(s.subrange(10 + c, 13 + c) =~= middle.subrange(10 + c, 13 + c));
    assert(s.subrange(16 + c, 16 + c + m) =~= message);
}

/// Where the bytes of a document with the message first stand.
proof fn lemma_message_first_layout(code: Seq<u8>, message: Seq<u8>)
    ensures
        ({
            let s = message_then_code(code, message);
            let c = code.len() as int;
            let m = message.len() as int;
            &&& s.len() == 18 + c + m
            &&& s[0] == OPEN_CURLY
            &&& s[1] == QUOTE
            &&& s.subrange(2, 5) == "msg".spec_bytes()
            &&& s[5] == QUOTE
            &&& s[6] == COLON
            &&& s[7] == QUOTE
            &&& s.subrange(8, 8 + m) == message
            &&& s[8 + m] == QUOTE
            &&& s[9 + m] == COMMA
            &&& s[10 + m] == QUOTE
            &&& s.subrange(11 + m, 15 + m) == "code".spec_bytes()
            &&& s[15 + m] == QUOTE
            &&& s[16 + m] == COLON
            &&& s.subrange(17 + m, 17 + m + c) == code
            &&& s[17 + m + c] == CLOSE_CURLY
        }),
{
    lemma_field_names();
    let s = message_then_code(code, message);
    let c = code.len() as int;
    let m = message.len() as int;
    let head = seq![OPEN_CURLY, QUOTE] + "msg".spec_bytes() + seq![QUOTE, COLON, QUOTE] + message;
    let middle = head + seq![QUOTE, COMMA, QUOTE] + "code".spec_bytes() + seq![QUOTE, COLON];
    assert(head.len() == 8 + m);
    assert(middle.len() == 17 + m);
    assert(s == middle + code + seq![CLOSE_CURLY]);
    assert(head.subrange(2, 5) =~= "msg".spec_bytes());
    assert(head.subrange(8, 8 + m) =~= message);
    assert(middle.subrange(0, 8 + m) =~= head);
    assert(middle.subrange(11 + m, 15 + m) =~= "code".spec_bytes());
    assert(s.subrange(0, 17 + m) =~= middle);
    assert(s.subrange(2, 5) =~= middle.subrange(2, 5));
    assert(middle.subrange(2, 5) =~= head.subrange(2, 5));
    assert(s.subrange(8, 8 + m) =~= middle.subrange(8, 8 + m));
    assert(middle.subrange(8, 8 + m) =~= head.subrange(8, 8 + m));
    assert(s.subrange(11 + m, 15 + m) =~= middle.subrange(11 + m, 15 + m));
    assert(s.subrange(17 + m, 17 + m + c) =~= code);
}

/// Where a field is found: behind `from` the next quote stands at `open`,
/// the quote behind it at `close`, the next colon at `colon` and the next
/// comma or closing brace at `end`.
pub open spec fn field_at(s: Seq<u8>, from: int, open: int, close: int, colon: int, end: int) -> bool {
    &&& first_at(s, from, Mark::Byte(QUOTE)) == open
    &&& first_at(s, open + 1, Mark::Byte(QUOTE)) == close
    &&& first_at(s, close + 1, Mark::Byte(COLON)) == colon
    &&& first_at(s, colon + 1, Mark::Either(COMMA, CLOSE_CURLY)) == end
}

/// A field is found where its marks stand with nothing like them in
/// between.
pub proof fn lemma_field_at(s: Seq<u8>, from: int, open: int, close: int, colon: int, end: int)
    requires
        from <= open < close < colon < end < s.len(),
        s[open] == QUOTE,
        s[close] == QUOTE,
        s[colon] == COLON,
        s[end] == COMMA || s[end] == CLOSE_CURLY,
        forall|i: int| from <= i < open ==> #[trigger] s[i] != QUOTE,
        forall|i: int| open < i < close ==> #[trigger] s[i] != QUOTE,
        forall|i: int| close < i < colon ==> #[trigger] s[i] != COLON,
        forall|i: int| colon < i < end ==> #[trigger] s[i] != COMMA && s[i] != CLOSE_CURLY,
    ensures
        field_at(s, from, open, close, colon, end),
{
    lemma_first_at_is(s, from, Mark::Byte(QUOTE), open);
    lemma_first_at_is(s, open + 1, Mark::Byte(QUOTE), close);
    lemma_first_at_is(s, close + 1, Mark::Byte(COLON), colon);
    lemma_first_at_is(s, colon + 1, Mark::Either(COMMA, CLOSE_CURLY), end);
}

/// The two fields of an error document are read alike in either order: for
/// a code that is an integer numeral of 32 bits and a message in UTF-8 that
/// holds no comma and no closing brace, both documents give that code and
/// that message.
pub proof fn lemma_fields_in_either_order(code: Seq<u8>, message: Seq<u8>)
    requires
        integer_of(code, i32::MIN as int, i32::MAX as int).is_ok(),
        valid_utf8(message),
        forall|i: int| 0 <= i < message.len() ==> message[i] != COMMA && message[i] != CLOSE_CURLY,
    ensures
        error_fields(code_then_message(code, message), 0, 0, Seq::empty()) == Ok::<
            (int, Seq<char>),
            ScanError,
        >((integer_value(code), decode_utf8(message))),
        error_fields(message_then_code(code, message), 0, 0, Seq::empty()) == Ok::<
            (int, Seq<char>),
            ScanError,
        >((integer_value(code), decode_utf8(message))),
{
    lemma_code_first(code, message);
    lemma_message_first(code, message);
}

proof fn lemma_code_first(code: Seq<u8>, message: Seq<u8>)
    requires
        integer_of(code, i32::MIN as int, i32::MAX as int).is_ok(),
        valid_utf8(message),
        forall|i: int| 0 <= i < message.len() ==> message[i] != COMMA && message[i] != CLOSE_CURLY,
    ensures
        error_fields(code_then_message(code, message), 0, 0, Seq::empty()) == Ok::<
            (int, Seq<char>),
            ScanError,
        >((integer_value(code), decode_utf8(message))),
{
    lemma_field_names();
    lemma_numeral_bytes(code);
    lemma_code_first_layout(code, message);
    let s = code_then_message(code, message);
    let c = code.len() as int;
    let m = message.len() as int;
    let v = integer_value(code);
    let text = decode_utf8(message);
    assert(field_at(s, 0, 1, 6, 7, 8 + c)) by {
        assert forall|i: int| 1 < i < 6 implies #[trigger] s[i] != QUOTE by {
            assert(s[i] == s.subrange(2, 6)[i - 2]);
        }
        assert forall|i: int| 7 < i < 8 + c implies #[trigger] s[i] != COMMA && s[i]
            != CLOSE_CURLY by {
            assert(s[i] == s.subrange(8, 8 + c)[i - 8]);
        }
        lemma_field_at(s, 0, 1, 6, 7, 8 + c);
    }
    assert(field_at(s, 9 + c, 9 + c, 13 + c, 14 + c, 17 + c + m)) by {
        assert forall|i: int| 9 + c < i < 13 + c implies #[trigger] s[i] != QUOTE by {
            assert(s[i] == s.subrange(10 + c, 13 + c)[i - 10 - c]);
        }
        assert forall|i: int| 14 + c < i < 17 + c + m implies #[trigger] s[i] != COMMA && s[i]
            != CLOSE_CURLY by {
            if 16 + c <= i < 16 + c + m {
                assert(s[i] == s.subrange(16 + c, 16 + c + m)[i - 16 - c]);
            }
        }
        lemma_field_at(s, 9 + c, 9 + c, 13 + c, 14 + c, 17 + c + m);
    }
    let value = s.subrange(15 + c, 17 + c + m);
    assert(value.subrange(1, value.len() - 1) =~= s.subrange(16 + c, 16 + c + m));
    lemma_no_field_at_end(s, v, text);
    assert(error_fields(s, 9 + c, v, Seq::empty()) == error_fields(s, 18 + c + m, v, text));
    assert(error_fields(s, 0, 0, Seq::empty()) == error_fields(s, 9 + c, v, Seq::empty()));
}

proof fn lemma_message_first(code: Seq<u8>, message: Seq<u8>)
    requires
        integer_of(code, i32::MIN as int, i32::MAX as int).is_ok(),
        valid_utf8(message),
        forall|i: int| 0 <= i < message.len() ==> message[i] != COMMA && message[i] != CLOSE_CURLY,
    ensures
        error_fields(message_then_code(code, message), 0, 0, Seq::empty()) == Ok::<
            (int, Seq<char>),
            ScanError,
        >((integer_value(code), decode_utf8(message))),
{
    lemma_field_names();
    lemma_numeral_bytes(code);
    lemma_message_first_layout(code, message);
    let s = message_then_code(code, message);
    let c = code.len() as int;
    let m = message.len() as int;
    let v = integer_value(code);
    let text = decode_utf8(message);
    assert(field_at(s, 0, 1, 5, 6, 9 + m)) by {
        assert forall|i: int| 1 < i < 5 implies #[trigger] s[i] != QUOTE by {
            assert(s[i] == s.subrange(2, 5)[i - 2]);
        }
        assert forall|i: int| 6 < i < 9 + m implies #[trigger] s[i] != COMMA && s[i]
            != CLOSE_CURLY by {
            if 8 <= i < 8 + m {
                assert(s[i] == s.subrange(8, 8 + m)[i - 8]);
            }
        }
        lemma_field_at(s, 0, 1, 5, 6, 9 + m);
    }
    assert(field_at(s, 10 + m, 10 + m, 15 + m, 16 + m, 17 + m + c)) by {
        assert forall|i: int| 10 + m < i < 15 + m implies #[trigger] s[i] != QUOTE by {
            assert(s[i] == s.subrange(11 + m, 15 + m)[i - 11 - m]);
        }
        assert forall|i: int| 16 + m < i < 17 + m + c implies #[trigger] s[i] != COMMA && s[i]
            != CLOSE_CURLY by {
            assert(s[i] == s.subrange(17 + m, 17 + m + c)[i - 17 - m]);
        }
        lemma_field_at(s, 10 + m, 10 + m, 15 + m, 16 + m, 17 + m + c);
    }
    let value = s.subrange(7, 9 + m);
    assert(value.subrange(1, value.len() - 1) =~= s.subrange(8, 8 + m));
    lemma_no_field_at_end(s, v, text);
    assert(error_fields(s, 10 + m, 0, text) == error_fields(s, 18 + c + m, v, text));
    assert(error_fields(s, 0, 0, Seq::empty()) == error_fields(s, 10 + m, 0, text));
}

/// The scanner finds either key of an error document in either order: the
/// search for `code` and the search for `msg` both stop behind the closing
/// quote of the key, wherever the key stands.
pub proof fn lemma_keys_in_either_order(code: Seq<u8>, message: Seq<u8>)
    requires
        is_integer(code),
        forall|i: int| 0 <= i < message.len() ==> message[i] != COMMA,
    ensures
        key_search(code_then_message(code, message), 0, "code".spec_bytes()) == Ok::<
            int,
            ScanError,
        >(7),
        key_search(code_then_message(code, message), 0, "msg".spec_bytes()) == Ok::<
            int,
            ScanError,
        >(14 + code.len() as int),
        key_search(message_then_code(code, message), 0, "msg".spec_bytes()) == Ok::<
            int,
            ScanError,
        >(6),
        key_search(message_then_code(code, message), 0, "code".spec_bytes()) == Ok::<
            int,
            ScanError,
        >(16 + message.len() as int),
{
    lemma_field_names();
    lemma_numeral_bytes(code);
    lemma_numeral_is_scalar(code);
    let c = code.len() as int;
    let m = message.len() as int;
    let quote = Mark::Byte(QUOTE);
    let comma = Mark::Byte(COMMA);
    let word_end = Mark::NonAlphanumeric;
    {
        lemma_code_first_layout(code, message);
        let s = code_then_message(code, message);
        assert forall|i: int| 2 <= i < 6 implies !word_end.hits(#[trigger] s[i]) by {
            assert(s[i] == s.subrange(2, 6)[i - 2]);
        }
        assert forall|i: int| 10 + c <= i < 13 + c implies !word_end.hits(#[trigger] s[i]) by {
            assert(s[i] == s.subrange(10 + c, 13 + c)[i - 10 - c]);
        }
        assert forall|i: int| 9 <= i < 8 + c implies !comma.hits(#[trigger] s[i]) by {
            assert(s[i] == s.subrange(8, 8 + c)[i - 8]);
        }
        assert(s[8] == s.subrange(8, 8 + c)[0]);
        lemma_first_at_is(s, 0, quote, 1);
        lemma_first_at_is(s, 2, word_end, 6);
        lemma_first_at_is(s, 9, comma, 8 + c);
        lemma_first_at_is(s, 9 + c, quote, 9 + c);
        lemma_first_at_is(s, 10 + c, word_end, 13 + c);
        assert(value_end(s, 9, kind_of(s[8])) == Ok::<int, ScanError>(9 + c));
        assert(key_search(s, 9 + c, "msg".spec_bytes()) == Ok::<int, ScanError>(14 + c));
    }
    {
        lemma_message_first_layout(code, message);
        let s = message_then_code(code, message);
        assert forall|i: int| 2 <= i < 5 implies !word_end.hits(#[trigger] s[i]) by {
            assert(s[i] == s.subrange(2, 5)[i - 2]);
        }
        assert forall|i: int| 11 + m <= i < 15 + m implies !word_end.hits(#[trigger] s[i]) by {
            assert(s[i] == s.subrange(11 + m, 15 + m)[i - 11 - m]);
        }
        assert forall|i: int| 8 <= i < 9 + m implies !comma.hits(#[trigger] s[i]) by {
            if i < 8 + m {
                assert(s[i] == s.subrange(8, 8 + m)[i - 8]);
            }
        }
        lemma_first_at_is(s, 0, quote, 1);
        lemma_first_at_is(s, 2, word_end, 5);
        lemma_first_at_is(s, 8, comma, 9 + m);
        lemma_first_at_is(s, 10 + m, quote, 10 + m);
        lemma_first_at_is(s, 11 + m, word_end, 15 + m);
        assert(value_end(s, 8, kind_of(s[7])) == Ok::<int, ScanError>(10 + m));
        assert(key_search(s, 10 + m, "code".spec_bytes()) == Ok::<int, ScanError>(16 + m));
    }
}

/// An integer numeral does not start as an array or an object does.
pub proof fn lemma_numeral_is_scalar(t: Seq<u8>)
    requires
        is_integer(t),
    ensures
        kind_of(t[0]) == Value::Other,
{
    if unsigned_part(t).len() == t.len() {
        assert(is_digit(unsigned_part(t)[0]));
    }
}

/// An integer numeral holds digits and a sign at most: no byte that ends a
/// field or a name.
pub proof fn lemma_numeral_bytes(t: Seq<u8>)
    requires
        is_integer(t),
    ensures
        t.len() > 0,
        forall|i: int|
            0 <= i < t.len() ==> #[trigger] t[i] != COMMA && t[i] != CLOSE_CURLY && t[i] != QUOTE
                && t[i] != COLON,
{
    assert forall|i: int| 0 <= i < t.len() implies #[trigger] t[i] != COMMA && t[i] != CLOSE_CURLY
        && t[i] != QUOTE && t[i] != COLON by {
        if unsigned_part(t).len() == t.len() {
            assert(is_digit(unsigned_part(t)[i]));
        } else if i > 0 {
            assert(is_digit(unsigned_part(t)[i - 1]));
        }
    }
}

/// Behind its last byte a document holds no further field.
pub proof fn lemma_no_field_at_end(s: Seq<u8>, code: int, message: Seq<char>)
    ensures
        error_fields(s, s.len() as int, code, message) == Ok::<(int, Seq<char>), ScanError>(
            (code, message),
        ),
{
    lemma_field_bounds(s, s.len() as int);
}

} // verus!
