//! A single-pass scanner over a byte buffer.
//!
//! The scanner trusts the shape of the payload: it looks for quoted keys and
//! steps over the values between them without building a tree.  Every search
//! is stated as a function of the buffer and the cursor, so a caller can say
//! where the cursor stands after any chain of searches.

use vstd::prelude::*;
use vstd::string::StringSliceAdditionalSpecFns;

verus! {

/// Why a search gave up.
#[derive(Debug, Clone, Copy, PartialEq, Eq, Structural)]
pub enum ScanError {
    /// A byte stood where the grammar wants another class of byte.
    Grammar,
    /// The buffer ended inside a construct.
    EndOfInput,
    /// A number was well formed but does not fit its type.
    OutOfRange,
}

/// The three kinds of value that can be stepped over.
#[derive(Debug, Clone, Copy, PartialEq, Eq, Structural)]
pub enum Value {
    Object,
    Array,
    Other,
}

/// What a forward search stops at.
#[derive(Debug, Clone, Copy, PartialEq, Eq, Structural)]
pub enum Mark {
    /// This very byte.
    Byte(u8),
    /// A byte that is no ASCII letter or digit.
    NonAlphanumeric,
    /// A byte that is no ASCII letter, digit or underscore.
    NonWord,
    /// A byte that is no ASCII letter, digit, hyphen or underscore.
    NonName,
    /// A byte that is no ASCII whitespace.
    NonSpace,
    /// An ASCII digit.
    Digit,
    /// One of two bytes.
    Either(u8, u8),
    /// One of three bytes.
    AnyOf(u8, u8, u8),
}

/// The bytes that the grammar names.
pub const QUOTE: u8 = 0x22;
pub const COMMA: u8 = 0x2c;
pub const HYPHEN: u8 = 0x2d;
pub const POINT: u8 = 0x2e;
pub const COLON: u8 = 0x3a;
pub const UNDERSCORE: u8 = 0x5f;
pub const OPEN_SQUARE: u8 = 0x5b;
pub const CLOSE_SQUARE: u8 = 0x5d;
pub const OPEN_CURLY: u8 = 0x7b;
pub const CLOSE_CURLY: u8 = 0x7d;

/// Whether `b` is an ASCII digit.
pub open spec fn is_digit(b: u8) -> bool {
    0x30 <= b <= 0x39
}

/// Whether `b` is an ASCII letter or digit.
pub open spec fn is_alphanumeric(b: u8) -> bool {
    is_digit(b) || 0x41 <= b <= 0x5a || 0x61 <= b <= 0x7a
}

/// Space, tab, line feed, form feed, carriage return.
pub open spec fn is_space(b: u8) -> bool {
    b == 0x20 || b == 0x09 || b == 0x0a || b == 0x0c || b == 0x0d
}

/// Tells whether `b` is an ASCII digit.
pub fn digit(b: u8) -> (r: bool)
    ensures
        r == is_digit(b),
{
    0x30 <= b && b <= 0x39
}

/// Tells whether `b` is an ASCII letter or digit.
pub fn alphanumeric(b: u8) -> (r: bool)
    ensures
        r == is_alphanumeric(b),
{
    digit(b) || (0x41 <= b && b <= 0x5a) || (0x61 <= b && b <= 0x7a)
}

/// Tells whether `b` is ASCII whitespace.
pub fn space(b: u8) -> (r: bool)
    ensures
        r == is_space(b),
{
    b == 0x20 || b == 0x09 || b == 0x0a || b == 0x0c || b == 0x0d
}

impl Mark {
    /// Whether a search for this mark stops at `b`.
    pub open spec fn hits(self, b: u8) -> bool {
        match self {
            Mark::Byte(d) => b == d,
            Mark::NonAlphanumeric => !is_alphanumeric(b),
            Mark::NonWord => !(is_alphanumeric(b) || b == UNDERSCORE),
            Mark::NonName => !(is_alphanumeric(b) || b == HYPHEN || b == UNDERSCORE),
            Mark::NonSpace => !is_space(b),
            Mark::Digit => is_digit(b),
            Mark::Either(x, y) => b == x || b == y,
            Mark::AnyOf(x, y, z) => b == x || b == y || b == z,
        }
    }

    /// Tells whether a search for this mark stops at `b`.
    pub fn stops_at(&self, b: u8) -> (r: bool)
        ensures
            r == self.hits(b),
    {
        match self {
            Mark::Byte(d) => b == *d,
            Mark::NonAlphanumeric => !alphanumeric(b),
            Mark::NonWord => !(alphanumeric(b) || b == UNDERSCORE),
            Mark::NonName => !(alphanumeric(b) || b == HYPHEN || b == UNDERSCORE),
            Mark::NonSpace => !space(b),
            Mark::Digit => digit(b),
            Mark::Either(x, y) => b == *x || b == *y,
            Mark::AnyOf(x, y, z) => b == *x || b == *y || b == *z,
        }
    }
}

/// The first index at or after `from` whose byte the mark hits, or the
/// length of `s` where there is none.
pub open spec fn first_at(s: Seq<u8>, from: int, mark: Mark) -> int
    decreases s.len() - from,
{
    if from >= s.len() {
        from
    } else if mark.hits(s[from]) {
        from
    } else {
        first_at(s, from + 1, mark)
    }
}

/// `first_at` is the least hit: nothing before it is hit, and it is a hit
/// unless it is the end.
pub proof fn lemma_first_at(s: Seq<u8>, from: int, mark: Mark)
    requires
        from <= s.len(),
    ensures
        from <= first_at(s, from, mark) <= s.len(),
        first_at(s, from, mark) < s.len() ==> mark.hits(s[first_at(s, from, mark)]),
        forall|i: int| from <= i < first_at(s, from, mark) ==> !mark.hits(#[trigger] s[i]),
    decreases s.len() - from,
{
    if from < s.len() && !mark.hits(s[from]) {
        lemma_first_at(s, from + 1, mark);
    }
}

/// An index that the mark hits, with no hit between `from` and it, is where
/// the search from `from` stops; so is the end, with no hit up to it.
pub proof fn lemma_first_at_is(s: Seq<u8>, from: int, mark: Mark, k: int)
    requires
        from <= k <= s.len(),
        forall|i: int| from <= i < k ==> !mark.hits(#[trigger] s[i]),
        k < s.len() ==> mark.hits(s[k]),
    ensures
        first_at(s, from, mark) == k,
    decreases k - from,
{
    if from < k {
        assert(!mark.hits(s[from]));
        lemma_first_at_is(s, from + 1, mark, k);
    }
}

/// A search never stops before it starts.
pub proof fn lemma_first_at_onward(s: Seq<u8>, from: int, mark: Mark)
    ensures
        from <= first_at(s, from, mark),
    decreases s.len() - from,
{
    if from < s.len() && !mark.hits(s[from]) {
        lemma_first_at_onward(s, from + 1, mark);
    }
}

/// A search in the back part of a sequence stops where the search in that
/// part alone stops.
pub proof fn lemma_first_at_shift(front: Seq<u8>, back: Seq<u8>, from: int, mark: Mark)
    requires
        0 <= from,
    ensures
        first_at(front + back, front.len() + from, mark) == front.len() + first_at(back, from, mark),
    decreases back.len() - from,
{
    if from < back.len() {
        assert((front + back)[front.len() + from] == back[from]);
        if !mark.hits(back[from]) {
            lemma_first_at_shift(front, back, from + 1, mark);
        }
    }
}

/// Searches forward from `from` for the mark.
pub fn seek(s: &[u8], from: usize, mark: Mark) -> (r: usize)
    requires
        from <= s@.len(),
    ensures
        r == first_at(s@, from as int, mark),
        from <= r <= s@.len(),
{
    let mut i: usize = from;
    while i < s.len() && !mark.stops_at(s[i])
        invariant
            from <= i <= s@.len(),
            first_at(s@, from as int, mark) == first_at(s@, i as int, mark),
        decreases s@.len() - i,
    {
        i += 1;
    }
    i
}

/// Whether the bytes of `s` in `from..to` spell `word`.
pub fn spells(s: &[u8], from: usize, to: usize, word: &[u8]) -> (r: bool)
    requires
        from <= to <= s@.len(),
    ensures
        r == (s@.subrange(from as int, to as int) == word@),
{
    if to - from != word.len() {
        return false;
    }
    let n: usize = to - from;
    let mut i: usize = 0;
    while i < n
        invariant
            from + n == to,
            to <= s@.len(),
            n == word@.len(),
            i <= n,
            forall|j: int| 0 <= j < i ==> s@[from + j] == word@[j],
        decreases n - i,
    {
        if s[from + i] != word[i] {
            assert(s@.subrange(from as int, to as int)[i as int] != word@[i as int]);
            return false;
        }
        i += 1;
    }
    assert(s@.subrange(from as int, to as int) =~= word@);
    true
}

/// Where a braced value ends: one past the brace that closes `depth` open
/// levels, braces counted as they come, or nothing where `s` ends before
/// that.
pub open spec fn object_end(s: Seq<u8>, from: int, depth: int) -> Option<int>
    decreases s.len() - from,
{
    if from >= s.len() {
        None
    } else if s[from] == OPEN_CURLY {
        object_end(s, from + 1, depth + 1)
    } else if s[from] == CLOSE_CURLY {
        if depth <= 1 {
            Some(from + 1)
        } else {
            object_end(s, from + 1, depth - 1)
        }
    } else {
        object_end(s, from + 1, depth)
    }
}

/// Where a bracketed value ends: one past the bracket that closes `depth`
/// open levels, or nothing where `s` ends before that.
pub open spec fn array_end(s: Seq<u8>, from: int, depth: int) -> Option<int>
    decreases s.len() - from,
{
    if from >= s.len() {
        None
    } else if s[from] == OPEN_SQUARE {
        array_end(s, from + 1, depth + 1)
    } else if s[from] == CLOSE_SQUARE {
        if depth <= 1 {
            Some(from + 1)
        } else {
            array_end(s, from + 1, depth - 1)
        }
    } else {
        array_end(s, from + 1, depth)
    }
}

/// Where a scalar ends: one past the next comma, or nothing where `s` holds
/// none.
pub open spec fn other_end(s: Seq<u8>, from: int) -> Option<int> {
    let comma = first_at(s, from, Mark::Byte(COMMA));
    if comma < s.len() {
        Some(comma + 1)
    } else {
        None
    }
}

/// Where a value of the given kind ends when its first byte has been read
/// and the cursor stands at `from`.  A value that the buffer cuts short has
/// no end.
pub open spec fn value_end(s: Seq<u8>, from: int, kind: Value) -> Result<int, ScanError> {
    let end = match kind {
        Value::Object => object_end(s, from, 1),
        Value::Array => array_end(s, from, 1),
        Value::Other => other_end(s, from),
    };
    match end {
        Some(end) => Ok(end),
        None => Err(ScanError::EndOfInput),
    }
}

/// The kind of value that starts with byte `b`.
pub open spec fn kind_of(b: u8) -> Value {
    if b == OPEN_SQUARE {
        Value::Array
    } else if b == OPEN_CURLY {
        Value::Object
    } else {
        Value::Other
    }
}

/// A braced value ends behind where it starts and inside the buffer.
pub proof fn lemma_object_end(s: Seq<u8>, from: int, depth: int)
    requires
        from <= s.len(),
    ensures
        match object_end(s, from, depth) {
            Some(end) => from < end <= s.len(),
            None => true,
        },
    decreases s.len() - from,
{
    if from < s.len() {
        lemma_object_end(s, from + 1, depth + 1);
        lemma_object_end(s, from + 1, depth - 1);
        lemma_object_end(s, from + 1, depth);
    }
}

/// A bracketed value ends behind where it starts and inside the buffer.
pub proof fn lemma_array_end(s: Seq<u8>, from: int, depth: int)
    requires
        from <= s.len(),
    ensures
        match array_end(s, from, depth) {
            Some(end) => from < end <= s.len(),
            None => true,
        },
    decreases s.len() - from,
{
    if from < s.len() {
        lemma_array_end(s, from + 1, depth + 1);
        lemma_array_end(s, from + 1, depth - 1);
        lemma_array_end(s, from + 1, depth);
    }
}

/// A value ends behind where it starts and inside the buffer.
pub proof fn lemma_value_end(s: Seq<u8>, from: int, kind: Value)
    requires
        from <= s.len(),
    ensures
        match value_end(s, from, kind) {
            Ok(end) => from < end <= s.len(),
            Err(e) => e == ScanError::EndOfInput,
        },
{
    lemma_object_end(s, from, 1);
    lemma_array_end(s, from, 1);
    lemma_first_at(s, from, Mark::Byte(COMMA));
}

/// A search result with its position read as a mathematical integer.
pub open spec fn at(r: Result<usize, ScanError>) -> Result<int, ScanError> {
    match r {
        Ok(p) => Ok(p as int),
        Err(e) => Err(e),
    }
}

/// Steps over a braced value whose opening brace has been read.
pub fn skip_object(s: &[u8], from: usize) -> (r: Option<usize>)
    requires
        from <= s@.len(),
    ensures
        match r {
            Some(end) => object_end(s@, from as int, 1) == Some(end as int) && from < end
                <= s@.len(),
            None => object_end(s@, from as int, 1).is_none(),
        },
{
    let mut i: usize = from;
    let mut nested: usize = 0;
    while i < s.len()
        invariant
            from <= i <= s@.len(),
            nested <= i - from,
            object_end(s@, from as int, 1) == object_end(s@, i as int, nested + 1),
        decreases s@.len() - i,
    {
        let b = s[i];
        i += 1;
        if b == OPEN_CURLY {
            nested += 1;
        } else if b == CLOSE_CURLY {
            if nested == 0 {
                return Some(i);
            }
            nested -= 1;
        }
    }
    None
}

/// Steps over a bracketed value whose opening bracket has been read.
pub fn skip_array(s: &[u8], from: usize) -> (r: Option<usize>)
    requires
        from <= s@.len(),
    ensures
        match r {
            Some(end) => array_end(s@, from as int, 1) == Some(end as int) && from < end <= s@.len(),
            None => array_end(s@, from as int, 1).is_none(),
        },
{
    let mut i: usize = from;
    let mut nested: usize = 0;
    while i < s.len()
        invariant
            from <= i <= s@.len(),
            nested <= i - from,
            array_end(s@, from as int, 1) == array_end(s@, i as int, nested + 1),
        decreases s@.len() - i,
    {
        let b = s[i];
        i += 1;
        if b == OPEN_SQUARE {
            nested += 1;
        } else if b == CLOSE_SQUARE {
            if nested == 0 {
                return Some(i);
            }
            nested -= 1;
        }
    }
    None
}

/// Steps over a scalar: through the next comma.
pub fn skip_other(s: &[u8], from: usize) -> (r: Option<usize>)
    requires
        from <= s@.len(),
    ensures
        match r {
            Some(end) => other_end(s@, from as int) == Some(end as int) && from < end <= s@.len(),
            None => other_end(s@, from as int).is_none(),
        },
{
    let comma = seek(s, from, Mark::Byte(COMMA));
    if comma < s.len() {
        Some(comma + 1)
    } else {
        None
    }
}

/// Steps over a value of the given kind.
pub fn skip_value_from(s: &[u8], from: usize, kind: Value) -> (r: Result<usize, ScanError>)
    requires
        from <= s@.len(),
    ensures
        at(r) == value_end(s@, from as int, kind),
        r matches Ok(end) ==> from < end <= s@.len(),
{
    let end = match kind {
        Value::Object => skip_object(s, from),
        Value::Array => skip_array(s, from),
        Value::Other => skip_other(s, from),
    };
    match end {
        Some(end) => Ok(end),
        None => Err(ScanError::EndOfInput),
    }
}

/// Tells the kind of value that starts with byte `b`.
pub fn kind_at(b: u8) -> (r: Value)
    ensures
        r == kind_of(b),
{
    if b == OPEN_SQUARE {
        Value::Array
    } else if b == OPEN_CURLY {
        Value::Object
    } else {
        Value::Other
    }
}

/// Where the cursor stands after a search for the quoted key `key` that
/// starts at `from`.
///
/// The search reads the next quoted name, which must be made of ASCII letters
/// and digits.  If it spells `key`, the cursor stops one past its closing
/// quote.  Otherwise a colon and a value must follow; the value is stepped
/// over according to its first byte, and the search goes on behind it.
pub open spec fn key_search(s: Seq<u8>, from: int, key: Seq<u8>) -> Result<int, ScanError>
    decreases s.len() - from,
    via key_search_decreases
{
    let start = first_at(s, from, Mark::Byte(QUOTE)) + 1;
    let close = first_at(s, start, Mark::NonAlphanumeric);
    if start >= s.len() {
        Err(ScanError::EndOfInput)
    } else if !is_alphanumeric(s[start]) {
        Err(ScanError::Grammar)
    } else if close >= s.len() {
        Err(ScanError::EndOfInput)
    } else if s[close] != QUOTE {
        Err(ScanError::Grammar)
    } else if s.subrange(start, close) == key {
        Ok(close + 1)
    } else if close + 1 >= s.len() {
        Err(ScanError::EndOfInput)
    } else if s[close + 1] != COLON {
        Err(ScanError::Grammar)
    } else if close + 2 >= s.len() {
        Err(ScanError::EndOfInput)
    } else {
        match value_end(s, close + 3, kind_of(s[close + 2])) {
            Ok(next) => key_search(s, next, key),
            Err(e) => Err(e),
        }
    }
}

#[via_fn]
proof fn key_search_decreases(s: Seq<u8>, from: int, key: Seq<u8>) {
    let start = first_at(s, from, Mark::Byte(QUOTE)) + 1;
    let close = first_at(s, start, Mark::NonAlphanumeric);
    if start < s.len() && close + 2 < s.len() {
        lemma_first_at(s, from, Mark::Byte(QUOTE));
        lemma_first_at(s, start, Mark::NonAlphanumeric);
        lemma_value_end(s, close + 3, kind_of(s[close + 2]));
    }
}

/// Where the cursor stands after a search, starting at `from`, for an object
/// whose leading key `key` has the value `value`.
///
/// The search reads the next quoted name.  If it is another key than `key`,
/// the rest of the enclosing object is stepped over, which must close, and
/// the search goes on behind it.  If it is `key`, the value behind the next colon is read: a run
/// of ASCII letters, digits and underscores, quoted or bare, closed by a quote
/// or a comma.  If the run spells `value`, the cursor stops one past the byte
/// that closes it; otherwise the search goes on from there.
pub open spec fn pair_search(s: Seq<u8>, from: int, key: Seq<u8>, value: Seq<u8>) -> Result<
    int,
    ScanError,
>
    decreases s.len() - from,
    via pair_search_decreases
{
    let start = first_at(s, from, Mark::Byte(QUOTE)) + 1;
    let close = first_at(s, start, Mark::NonAlphanumeric);
    let colon = first_at(s, close + 1, Mark::Byte(COLON));
    let first = if s[colon + 1] == QUOTE {
        colon + 2
    } else {
        colon + 1
    };
    let last = first_at(s, first, Mark::NonWord);
    if start >= s.len() {
        Err(ScanError::EndOfInput)
    } else if !is_alphanumeric(s[start]) {
        Err(ScanError::Grammar)
    } else if close >= s.len() {
        Err(ScanError::EndOfInput)
    } else if s[close] != QUOTE {
        Err(ScanError::Grammar)
    } else if s.subrange(start, close) != key {
        match object_end(s, close + 1, 1) {
            Some(next) => pair_search(s, next, key, value),
            None => Err(ScanError::EndOfInput),
        }
    } else if colon + 1 >= s.len() {
        Err(ScanError::EndOfInput)
    } else if !(is_alphanumeric(s[colon + 1]) || s[colon + 1] == QUOTE) {
        Err(ScanError::Grammar)
    } else if last >= s.len() {
        Err(ScanError::EndOfInput)
    } else if !(s[last] == QUOTE || s[last] == COMMA) {
        Err(ScanError::Grammar)
    } else if s.subrange(first, last) == value {
        Ok(last + 1)
    } else {
        pair_search(s, last + 1, key, value)
    }
}

#[via_fn]
proof fn pair_search_decreases(s: Seq<u8>, from: int, key: Seq<u8>, value: Seq<u8>) {
    let start = first_at(s, from, Mark::Byte(QUOTE)) + 1;
    let close = first_at(s, start, Mark::NonAlphanumeric);
    let colon = first_at(s, close + 1, Mark::Byte(COLON));
    let first = if s[colon + 1] == QUOTE {
        colon + 2
    } else {
        colon + 1
    };
    if start < s.len() && close < s.len() {
        lemma_first_at(s, from, Mark::Byte(QUOTE));
        lemma_first_at(s, start, Mark::NonAlphanumeric);
        lemma_object_end(s, close + 1, 1);
        lemma_first_at(s, close + 1, Mark::Byte(COLON));
        if colon + 1 < s.len() {
            lemma_first_at(s, first, Mark::NonWord);
        }
    }
}

/// A byte buffer with a read cursor.
pub struct Haystack<'a> {
    slice: &'a [u8],
    pos: usize,
}

impl<'a> Haystack<'a> {
    /// The bytes under the scanner.
    pub closed spec fn buffer(&self) -> Seq<u8> {
        self.slice@
    }

    /// How many bytes have been read.
    pub closed spec fn cursor(&self) -> int {
        self.pos as int
    }

    /// The cursor never leaves the buffer.
    pub closed spec fn wf(&self) -> bool {
        self.pos <= self.slice@.len()
    }

    /// What well-formedness means to a caller.
    pub proof fn lemma_cursor_in_buffer(&self)
        requires
            self.wf(),
        ensures
            0 <= self.cursor() <= self.buffer().len(),
    {
    }

    /// A scanner at the start of `slice`.
    pub fn new(slice: &'a [u8]) -> (r: Self)
        ensures
            r.wf(),
            r.buffer() == slice@,
            r.cursor() == 0,
    {
        Self { slice, pos: 0 }
    }

    /// The number of bytes read so far.
    pub fn position(&self) -> (r: usize)
        ensures
            r == self.cursor(),
    {
        self.pos
    }

    /// Reads one byte, if any is left.
    pub fn next(&mut self) -> (r: Option<u8>)
        requires
            old(self).wf(),
        ensures
            final(self).wf(),
            final(self).buffer() == old(self).buffer(),
            old(self).cursor() < old(self).buffer().len() ==> r == Some(
                old(self).buffer()[old(self).cursor()],
            ) && final(self).cursor() == old(self).cursor() + 1,
            old(self).cursor() >= old(self).buffer().len() ==> r.is_none() && final(self).cursor()
                == old(self).cursor(),
    {
        if self.pos < self.slice.len() {
            let b = self.slice[self.pos];
            self.pos += 1;
            Some(b)
        } else {
            None
        }
    }

    /// The byte under the cursor, if any is left; the cursor stays.
    pub fn peek(&self) -> (r: Option<u8>)
        requires
            self.wf(),
        ensures
            self.cursor() < self.buffer().len() ==> r == Some(self.buffer()[self.cursor()]),
            self.cursor() >= self.buffer().len() ==> r.is_none(),
    {
        if self.pos < self.slice.len() {
            Some(self.slice[self.pos])
        } else {
            None
        }
    }

    /// Moves the cursor to the next byte that is no whitespace.
    pub fn skip_whitespace(&mut self)
        requires
            old(self).wf(),
        ensures
            final(self).wf(),
            final(self).buffer() == old(self).buffer(),
            final(self).cursor() == first_at(
                old(self).buffer(),
                old(self).cursor(),
                Mark::NonSpace,
            ),
    {
        self.pos = seek(self.slice, self.pos, Mark::NonSpace);
    }

    /// Steps over a value whose first byte has been read: an object through
    /// the brace that closes it, an array through its bracket, a scalar
    /// through the next comma.  A value that the buffer cuts short is an
    /// error, and the cursor then stays where it was.
    pub fn skip_value(&mut self, value: Value) -> (r: Result<(), ScanError>)
        requires
            old(self).wf(),
        ensures
            final(self).wf(),
            final(self).buffer() == old(self).buffer(),
            match value_end(old(self).buffer(), old(self).cursor(), value) {
                Ok(end) => r.is_ok() && final(self).cursor() == end,
                Err(e) => r == Err::<(), ScanError>(e) && final(self).cursor() == old(self).cursor(),
            },
    {
        match skip_value_from(self.slice, self.pos, value) {
            Ok(end) => {
                self.pos = end;
                Ok(())
            },
            Err(e) => Err(e),
        }
    }

    /// Searches for an object whose leading key `key` has the value `value`
    /// and stops behind that value.  On an error the cursor stays where it
    /// was.
    pub fn find_pair(&mut self, key: &str, value: &str) -> (r: Result<(), ScanError>)
        requires
            old(self).wf(),
        ensures
            final(self).wf(),
            final(self).buffer() == old(self).buffer(),
            match pair_search(
                old(self).buffer(),
                old(self).cursor(),
                key.spec_bytes(),
                value.spec_bytes(),
            ) {
                Ok(end) => r.is_ok() && final(self).cursor() == end,
                Err(e) => r == Err::<(), ScanError>(e) && final(self).cursor() == old(self).cursor(),
            },
    {
        let s = self.slice;
        let name = key.as_bytes();
        let wanted = value.as_bytes();
        let ghost begin = self.pos as int;
        let mut pos: usize = self.pos;
        loop
            invariant
                *self == *old(self),
                s == self.slice,
                self.pos == begin,
                begin <= pos <= s@.len(),
                name@ == key.spec_bytes(),
                wanted@ == value.spec_bytes(),
                pair_search(s@, begin, name@, wanted@) == pair_search(s@, pos as int, name@, wanted@),
            decreases s@.len() - pos,
        {
            let open = seek(s, pos, Mark::Byte(QUOTE));
            if open >= s.len() || open + 1 >= s.len() {
                return Err(ScanError::EndOfInput);
            }
            let start = open + 1;
            if !alphanumeric(s[start]) {
                return Err(ScanError::Grammar);
            }
            let close = seek(s, start, Mark::NonAlphanumeric);
            if close >= s.len() {
                return Err(ScanError::EndOfInput);
            }
            if s[close] != QUOTE {
                return Err(ScanError::Grammar);
            }
            if !spells(s, start, close, name) {
                match skip_object(s, close + 1) {
                    Some(next) => {
                        pos = next;
                    },
                    None => {
                        return Err(ScanError::EndOfInput);
                    },
                }
            } else {
                let colon = seek(s, close + 1, Mark::Byte(COLON));
                if colon >= s.len() || colon + 1 >= s.len() {
                    return Err(ScanError::EndOfInput);
                }
                let b = s[colon + 1];
                if !(alphanumeric(b) || b == QUOTE) {
                    return Err(ScanError::Grammar);
                }
                let first = if b == QUOTE {
                    colon + 2
                } else {
                    colon + 1
                };
                let last = seek(s, first, Mark::NonWord);
                if last >= s.len() {
                    return Err(ScanError::EndOfInput);
                }
                if !(s[last] == QUOTE || s[last] == COMMA) {
                    return Err(ScanError::Grammar);
                }
                if spells(s, first, last, wanted) {
                    self.pos = last + 1;
                    return Ok(());
                }
                pos = last + 1;
            }
        }
    }

    /// Searches for the quoted key `key` among the keys of the current
    /// nesting level and stops behind its closing quote.  On an error the
    /// cursor stays where it was.
    pub fn find_key(&mut self, key: &str) -> (r: Result<(), ScanError>)
        requires
            old(self).wf(),
        ensures
            final(self).wf(),
            final(self).buffer() == old(self).buffer(),
            match key_search(old(self).buffer(), old(self).cursor(), key.spec_bytes()) {
                Ok(end) => r.is_ok() && final(self).cursor() == end,
                Err(e) => r == Err::<(), ScanError>(e) && final(self).cursor() == old(self).cursor(),
            },
    {
        let s = self.slice;
        let name = key.as_bytes();
        let ghost begin = self.pos as int;
        let mut pos: usize = self.pos;
        loop
            invariant
                *self == *old(self),
                s == self.slice,
                self.pos == begin,
                begin <= pos <= s@.len(),
                name@ == key.spec_bytes(),
                key_search(s@, begin, name@) == key_search(s@, pos as int, name@),
            decreases s@.len() - pos,
        {
            let open = seek(s, pos, Mark::Byte(QUOTE));
            if open >= s.len() || open + 1 >= s.len() {
                return Err(ScanError::EndOfInput);
            }
            let start = open + 1;
            if !alphanumeric(s[start]) {
                return Err(ScanError::Grammar);
            }
            let close = seek(s, start, Mark::NonAlphanumeric);
            if close >= s.len() {
                return Err(ScanError::EndOfInput);
            }
            if s[close] != QUOTE {
                return Err(ScanError::Grammar);
            }
            if spells(s, start, close, name) {
                self.pos = close + 1;
                return Ok(());
            }
            if close + 1 >= s.len() {
                return Err(ScanError::EndOfInput);
            }
            if s[close + 1] != COLON {
                return Err(ScanError::Grammar);
            }
            if close + 2 >= s.len() {
                return Err(ScanError::EndOfInput);
            }
            match skip_value_from(s, close + 3, kind_at(s[close + 2])) {
                Ok(next) => {
                    pos = next;
                },
                Err(e) => {
                    return Err(e);
                },
            }
        }
    }
}

} // verus!
