//! The cache file: tables of assets and symbols in a small subset of TOML.
//!
//! A table opens with its name in brackets.  Each line behind it is a key,
//! an equals sign and a value; a value is a quoted text or a bare run up to
//! the end of its line.  The keys of a table come in a fixed order.

use crate::exchange::binance::{text_from_utf8, Asset};
use crate::finder::{
    alphanumeric, first_at, is_alphanumeric, lemma_first_at, seek, spells, Mark, ScanError,
    OPEN_SQUARE, QUOTE,
};
use crate::number::{decimal_of, integer_of, parse_integer, Decimal};
use crate::trading::{Symbol, Thresholds};
use vstd::prelude::*;
use vstd::slice::{slice_subrange, slice_to_vec};
use vstd::string::StringSliceAdditionalSpecFns;
use vstd::utf8::{decode_utf8, valid_utf8};

verus! {

/// The end of a line.
pub const LINE_FEED: u8 = 0x0a;

/// The equals sign.
pub const EQUALS: u8 = 0x3d;

/// An asset as the cache lists it.
pub struct AssetLine {
    pub name: Seq<char>,
    pub balance: Decimal,
}

/// A symbol as the cache lists it.
pub struct SymbolLine {
    pub base: Seq<char>,
    pub quote: Seq<char>,
    pub step_size: i32,
}

/// What a cache lists, and where the listing ends.
pub struct Listing {
    pub assets: Seq<AssetLine>,
    pub symbols: Seq<SymbolLine>,
    pub end: int,
}

/// The bounds of the table name that opens at or behind `from`, whitespace
/// apart; nothing where no bracket opens there.  The cursor then stands at
/// the end of the name.
pub open spec fn table_name(s: Seq<u8>, from: int) -> Result<Option<(int, int)>, ScanError> {
    let open = first_at(s, from, Mark::NonSpace);
    let start = if open + 1 < s.len() && s[open + 1] == OPEN_SQUARE {
        open + 2
    } else {
        open + 1
    };
    let end = first_at(s, start + 1, Mark::NonName);
    if open >= s.len() || s[open] != OPEN_SQUARE {
        Ok(None)
    } else if start >= s.len() {
        Err(ScanError::EndOfInput)
    } else if !is_alphanumeric(s[start]) {
        Err(ScanError::Grammar)
    } else if end >= s.len() {
        Err(ScanError::EndOfInput)
    } else {
        Ok(Some((start, end)))
    }
}

/// The bounds of the key on the line behind the one that `from` stands in.
/// The cursor then stands at the end of the key.
pub open spec fn key_bounds(s: Seq<u8>, from: int) -> Result<(int, int), ScanError> {
    let start = first_at(s, first_at(s, from, Mark::Byte(LINE_FEED)), Mark::NonSpace);
    let end = first_at(s, start + 1, Mark::NonName);
    if start >= s.len() {
        Err(ScanError::EndOfInput)
    } else if !is_alphanumeric(s[start]) {
        Err(ScanError::Grammar)
    } else if end >= s.len() {
        Err(ScanError::EndOfInput)
    } else {
        Ok((start, end))
    }
}

/// The bounds of the value behind the equals sign at or behind `from`.  A
/// quoted value runs from behind its quote up to the next quote that is not
/// its first byte; a bare value runs up to the end of its line.  The cursor
/// then stands at the end of the value.
pub open spec fn value_bounds(s: Seq<u8>, from: int) -> Result<(int, int), ScanError> {
    let equals = first_at(s, from, Mark::NonSpace);
    let start = first_at(s, equals + 1, Mark::NonSpace);
    if equals >= s.len() {
        Err(ScanError::EndOfInput)
    } else if s[equals] != EQUALS {
        Err(ScanError::Grammar)
    } else if start >= s.len() {
        Err(ScanError::EndOfInput)
    } else if s[start] == QUOTE {
        if start + 1 >= s.len() || first_at(s, start + 2, Mark::Byte(QUOTE)) >= s.len() {
            Err(ScanError::EndOfInput)
        } else {
            Ok((start + 1, first_at(s, start + 2, Mark::Byte(QUOTE))))
        }
    } else if first_at(s, start, Mark::Byte(LINE_FEED)) >= s.len() {
        Err(ScanError::EndOfInput)
    } else {
        Ok((start, first_at(s, start, Mark::Byte(LINE_FEED))))
    }
}

/// The bounds of the value of the next line, whose key must be `key`.
pub open spec fn field(s: Seq<u8>, from: int, key: Seq<u8>) -> Result<(int, int), ScanError> {
    match key_bounds(s, from) {
        Err(e) => Err(e),
        Ok((start, end)) => if s.subrange(start, end) == key {
            value_bounds(s, end)
        } else {
            Err(ScanError::Grammar)
        },
    }
}

/// The text that the bytes of `s` in `start..end` encode.
pub open spec fn text_of(s: Seq<u8>, start: int, end: int) -> Result<Seq<char>, ScanError> {
    if valid_utf8(s.subrange(start, end)) {
        Ok(decode_utf8(s.subrange(start, end)))
    } else {
        Err(ScanError::Grammar)
    }
}

/// The asset that the lines behind `from` list, and where its last value
/// ends: a `name`, then a `balance`.
pub open spec fn asset_at(s: Seq<u8>, from: int) -> Result<(AssetLine, int), ScanError> {
    match field(s, from, "name".spec_bytes()) {
        Err(e) => Err(e),
        Ok((a, b)) => match text_of(s, a, b) {
            Err(e) => Err(e),
            Ok(name) => match field(s, b, "balance".spec_bytes()) {
                Err(e) => Err(e),
                Ok((c, d)) => match decimal_of(s.subrange(c, d)) {
                    Err(e) => Err(e),
                    Ok(balance) => Ok((AssetLine { name, balance }, d)),
                },
            },
        },
    }
}

/// The symbol that the lines behind `from` list, and where its last value
/// ends: a `base`, a `quote`, then a `step-size`.
pub open spec fn symbol_at(s: Seq<u8>, from: int) -> Result<(SymbolLine, int), ScanError> {
    match field(s, from, "base".spec_bytes()) {
        Err(e) => Err(e),
        Ok((a, b)) => match text_of(s, a, b) {
            Err(e) => Err(e),
            Ok(base) => match field(s, b, "quote".spec_bytes()) {
                Err(e) => Err(e),
                Ok((c, d)) => match text_of(s, c, d) {
                    Err(e) => Err(e),
                    Ok(quote) => match field(s, d, "step-size".spec_bytes()) {
                        Err(e) => Err(e),
                        Ok((x, y)) => match integer_of(
                            s.subrange(x, y),
                            i32::MIN as int,
                            i32::MAX as int,
                        ) {
                            Err(e) => Err(e),
                            Ok(step) => Ok((SymbolLine { base, quote, step_size: step as i32 }, y)),
                        },
                    },
                },
            },
        },
    }
}

/// What the tables from `from` on list, behind what `seen` lists already.
/// A table is named `assets` or `symbols`; the listing ends where no table
/// opens.
pub open spec fn listing_from(s: Seq<u8>, from: int, seen: Listing) -> Result<Listing, ScanError>
    decreases s.len() - from,
    via listing_from_decreases
{
    match table_name(s, from) {
        Err(e) => Err(e),
        Ok(None) => Ok(Listing { end: first_at(s, from, Mark::NonSpace), ..seen }),
        Ok(Some((start, end))) => if s.subrange(start, end) == "assets".spec_bytes() {
            match asset_at(s, end) {
                Err(e) => Err(e),
                Ok((asset, next)) => listing_from(
                    s,
                    next,
                    Listing { assets: seen.assets.push(asset), ..seen },
                ),
            }
        } else if s.subrange(start, end) == "symbols".spec_bytes() {
            match symbol_at(s, end) {
                Err(e) => Err(e),
                Ok((symbol, next)) => listing_from(
                    s,
                    next,
                    Listing { symbols: seen.symbols.push(symbol), ..seen },
                ),
            }
        } else {
            Err(ScanError::Grammar)
        },
    }
}

#[via_fn]
proof fn listing_from_decreases(s: Seq<u8>, from: int, seen: Listing) {
    match table_name(s, from) {
        Ok(Some((start, end))) => {
            lemma_table_name(s, from);
            lemma_asset_at(s, end);
            lemma_symbol_at(s, end);
        },
        _ => {},
    }
}

/// A table name lies behind where the search for it starts and inside the
/// buffer.
pub proof fn lemma_table_name(s: Seq<u8>, from: int)
    requires
        from <= s.len(),
    ensures
        table_name(s, from) matches Ok(Some((start, end))) ==> from < start < end < s.len(),
{
    let open = first_at(s, from, Mark::NonSpace);
    lemma_first_at(s, from, Mark::NonSpace);
    let start = if open + 1 < s.len() && s[open + 1] == OPEN_SQUARE {
        open + 2
    } else {
        open + 1
    };
    if start < s.len() {
        lemma_first_at(s, start + 1, Mark::NonName);
    }
}

/// A key lies at or behind where the search for it starts and inside the
/// buffer.
pub proof fn lemma_key_bounds(s: Seq<u8>, from: int)
    requires
        from <= s.len(),
    ensures
        key_bounds(s, from) matches Ok((start, end)) ==> from <= start < end < s.len(),
{
    let line = first_at(s, from, Mark::Byte(LINE_FEED));
    lemma_first_at(s, from, Mark::Byte(LINE_FEED));
    lemma_first_at(s, line, Mark::NonSpace);
    let start = first_at(s, line, Mark::NonSpace);
    if start < s.len() {
        lemma_first_at(s, start + 1, Mark::NonName);
    }
}

/// A value lies behind where the search for it starts and inside the
/// buffer.
pub proof fn lemma_value_bounds(s: Seq<u8>, from: int)
    requires
        from <= s.len(),
    ensures
        value_bounds(s, from) matches Ok((start, end)) ==> from < start <= end < s.len(),
{
    let equals = first_at(s, from, Mark::NonSpace);
    lemma_first_at(s, from, Mark::NonSpace);
    if equals < s.len() {
        lemma_first_at(s, equals + 1, Mark::NonSpace);
        let start = first_at(s, equals + 1, Mark::NonSpace);
        if start < s.len() {
            lemma_first_at(s, start, Mark::Byte(LINE_FEED));
            if start + 1 < s.len() {
                lemma_first_at(s, start + 2, Mark::Byte(QUOTE));
            }
        }
    }
}

/// The value of a field lies behind where the search for the field starts.
pub proof fn lemma_field(s: Seq<u8>, from: int, key: Seq<u8>)
    requires
        from <= s.len(),
    ensures
        field(s, from, key) matches Ok((start, end)) ==> from < start <= end < s.len(),
{
    lemma_key_bounds(s, from);
    match key_bounds(s, from) {
        Ok((start, end)) => {
            lemma_value_bounds(s, end);
        },
        _ => {},
    }
}

/// The lines of an asset end behind where they start.
pub proof fn lemma_asset_at(s: Seq<u8>, from: int)
    requires
        from <= s.len(),
    ensures
        asset_at(s, from) matches Ok((asset, next)) ==> from < next < s.len(),
{
    lemma_field(s, from, "name".spec_bytes());
    match field(s, from, "name".spec_bytes()) {
        Ok((a, b)) => {
            lemma_field(s, b, "balance".spec_bytes());
        },
        _ => {},
    }
}

/// The lines of a symbol end behind where they start.
pub proof fn lemma_symbol_at(s: Seq<u8>, from: int)
    requires
        from <= s.len(),
    ensures
        symbol_at(s, from) matches Ok((symbol, next)) ==> from < next < s.len(),
{
    lemma_field(s, from, "base".spec_bytes());
    match field(s, from, "base".spec_bytes()) {
        Ok((a, b)) => {
            lemma_field(s, b, "quote".spec_bytes());
            match field(s, b, "quote".spec_bytes()) {
                Ok((c, d)) => {
                    lemma_field(s, d, "step-size".spec_bytes());
                },
                _ => {},
            }
        },
        _ => {},
    }
}

/// Whether `asset` is what `line` lists.
pub open spec fn lists_asset(asset: Asset, line: AssetLine) -> bool {
    asset.name@ == line.name && asset.balance == line.balance
}

/// Whether `symbol` is the flat instrument that `line` lists.
pub open spec fn lists_symbol(symbol: Symbol, line: SymbolLine, limits: Thresholds) -> bool {
    &&& symbol.fresh(line.step_size, limits)
    &&& symbol.name().whole_name() == line.base + line.quote
    &&& symbol.name().base_name() == line.base
    &&& symbol.name().quote_name() == line.quote
}

/// A reader of the cache file.
pub struct TomlParser<'a> {
    slice: &'a [u8],
    pos: usize,
}

impl<'a> TomlParser<'a> {
    /// The bytes under the reader.
    pub closed spec fn buffer(&self) -> Seq<u8> {
        self.slice@
    }

    /// How many bytes have been read.
    pub closed spec fn cursor(&self) -> int {
        self.pos as int
    }

    /// The cursor never leaves the buffer.
    pub closed spec fn wf(&self) -> bool {
        self.pos <= self.slice@.len()
    }

    /// A reader at the start of `slice`.
    pub fn new(slice: &'a [u8]) -> (r: Self)
        ensures
            r.wf(),
            r.buffer() == slice@,
            r.cursor() == 0,
    {
        Self { slice, pos: 0 }
    }

    /// Moves the cursor to the next byte that is no whitespace.
    pub fn skip_whitespaces(&mut self)
        requires
            old(self).wf(),
        ensures
            final(self).wf(),
            final(self).buffer() == old(self).buffer(),
            final(self).cursor() == first_at(old(self).buffer(), old(self).cursor(), Mark::NonSpace),
    {
        self.pos = seek(self.slice, self.pos, Mark::NonSpace);
    }

    /// Moves the cursor to the next byte that cannot stand in a name.
    pub fn skip_alphanumerics(&mut self)
        requires
            old(self).wf(),
        ensures
            final(self).wf(),
            final(self).buffer() == old(self).buffer(),
            final(self).cursor() == first_at(old(self).buffer(), old(self).cursor(), Mark::NonName),
    {
        self.pos = seek(self.slice, self.pos, Mark::NonName);
    }

    /// Moves the cursor to the next `delim` and says where it stands, or to
    /// the end where there is none.
    pub fn skip_until(&mut self, delim: u8) -> (r: Option<usize>)
        requires
            old(self).wf(),
        ensures
            final(self).wf(),
            final(self).buffer() == old(self).buffer(),
            final(self).cursor() == first_at(
                old(self).buffer(),
                old(self).cursor(),
                Mark::Byte(delim),
            ),
            r == if final(self).cursor() < final(self).buffer().len() {
                Some(final(self).cursor() as usize)
            } else {
                None
            },
    {
        self.pos = seek(self.slice, self.pos, Mark::Byte(delim));
        if self.pos < self.slice.len() {
            Some(self.pos)
        } else {
            None
        }
    }

    /// Reads the name of the table that opens next, if one does.  Without a
    /// table the cursor stops behind the whitespace; on an error it stays
    /// where it was.
    pub fn next_table(&mut self) -> (r: Result<Option<&'a [u8]>, ScanError>)
        requires
            old(self).wf(),
        ensures
            final(self).wf(),
            final(self).buffer() == old(self).buffer(),
            match table_name(old(self).buffer(), old(self).cursor()) {
                Ok(Some((start, end))) => r matches Ok(Some(name)) && name@ == old(
                    self).buffer().subrange(start, end) && final(self).cursor() == end,
                Ok(None) => r matches Ok(None) && final(self).cursor() == first_at(
                    old(self).buffer(),
                    old(self).cursor(),
                    Mark::NonSpace,
                ),
                Err(e) => r matches Err(x) && x == e && final(self).cursor() == old(self).cursor(),
            },
    {
        let s = self.slice;
        let open = seek(s, self.pos, Mark::NonSpace);
        if open >= s.len() || s[open] != OPEN_SQUARE {
            self.pos = open;
            return Ok(None);
        }
        let start = if open + 1 < s.len() && s[open + 1] == OPEN_SQUARE {
            open + 2
        } else {
            open + 1
        };
        if start >= s.len() {
            return Err(ScanError::EndOfInput);
        }
        if !alphanumeric(s[start]) {
            return Err(ScanError::Grammar);
        }
        let end = seek(s, start + 1, Mark::NonName);
        if end >= s.len() {
            return Err(ScanError::EndOfInput);
        }
        self.pos = end;
        Ok(Some(slice_subrange(s, start, end)))
    }

    /// Reads the key on the next line.  On an error the cursor stays where
    /// it was.
    pub fn next_key(&mut self) -> (r: Result<&'a [u8], ScanError>)
        requires
            old(self).wf(),
        ensures
            final(self).wf(),
            final(self).buffer() == old(self).buffer(),
            match key_bounds(old(self).buffer(), old(self).cursor()) {
                Ok((start, end)) => r matches Ok(key) && key@ == old(self).buffer().subrange(
                    start,
                    end,
                ) && final(self).cursor() == end,
                Err(e) => r matches Err(x) && x == e && final(self).cursor() == old(self).cursor(),
            },
    {
        let s = self.slice;
        let line = seek(s, self.pos, Mark::Byte(LINE_FEED));
        let start = seek(s, line, Mark::NonSpace);
        if start >= s.len() {
            return Err(ScanError::EndOfInput);
        }
        if !alphanumeric(s[start]) {
            return Err(ScanError::Grammar);
        }
        let end = seek(s, start + 1, Mark::NonName);
        if end >= s.len() {
            return Err(ScanError::EndOfInput);
        }
        self.pos = end;
        Ok(slice_subrange(s, start, end))
    }

    /// Reads the value behind the equals sign that comes next.  On an error
    /// the cursor stays where it was.
    pub fn next_value(&mut self) -> (r: Result<&'a [u8], ScanError>)
        requires
            old(self).wf(),
        ensures
            final(self).wf(),
            final(self).buffer() == old(self).buffer(),
            match value_bounds(old(self).buffer(), old(self).cursor()) {
                Ok((start, end)) => r matches Ok(value) && value@ == old(self).buffer().subrange(
                    start,
                    end,
                ) && final(self).cursor() == end,
                Err(e) => r matches Err(x) && x == e && final(self).cursor() == old(self).cursor(),
            },
    {
        let s = self.slice;
        let equals = seek(s, self.pos, Mark::NonSpace);
        if equals >= s.len() {
            return Err(ScanError::EndOfInput);
        }
        if s[equals] != EQUALS {
            return Err(ScanError::Grammar);
        }
        let start = seek(s, equals + 1, Mark::NonSpace);
        if start >= s.len() {
            return Err(ScanError::EndOfInput);
        }
        if s[start] == QUOTE {
            if start + 1 >= s.len() {
                return Err(ScanError::EndOfInput);
            }
            let end = seek(s, start + 2, Mark::Byte(QUOTE));
            if end >= s.len() {
                return Err(ScanError::EndOfInput);
            }
            self.pos = end;
            Ok(slice_subrange(s, start + 1, end))
        } else {
            let end = seek(s, start, Mark::Byte(LINE_FEED));
            if end >= s.len() {
                return Err(ScanError::EndOfInput);
            }
            self.pos = end;
            Ok(slice_subrange(s, start, end))
        }
    }

    /// Reads the value of the next line, whose key must be `key`.  On an
    /// error the cursor stays where it was.
    fn expect(&mut self, key: &str) -> (r: Result<&'a [u8], ScanError>)
        requires
            old(self).wf(),
        ensures
            final(self).wf(),
            final(self).buffer() == old(self).buffer(),
            match field(old(self).buffer(), old(self).cursor(), key.spec_bytes()) {
                Ok((start, end)) => r matches Ok(value) && value@ == old(self).buffer().subrange(
                    start,
                    end,
                ) && final(self).cursor() == end,
                Err(e) => r matches Err(x) && x == e && final(self).cursor() == old(self).cursor(),
            },
    {
        let begin = self.pos;
        let found = match self.next_key() {
            Ok(found) => found,
            Err(e) => {
                return Err(e);
            },
        };
        assert(found@.subrange(0, found@.len() as int) =~= found@);
        if !spells(found, 0, found.len(), key.as_bytes()) {
            self.pos = begin;
            return Err(ScanError::Grammar);
        }
        match self.next_value() {
            Ok(value) => Ok(value),
            Err(e) => {
                self.pos = begin;
                Err(e)
            },
        }
    }

    /// Reads the lines of an asset.  On an error the cursor stays where it
    /// was.
    pub fn parse_asset(&mut self) -> (r: Result<Asset, ScanError>)
        requires
            old(self).wf(),
        ensures
            final(self).wf(),
            final(self).buffer() == old(self).buffer(),
            match asset_at(old(self).buffer(), old(self).cursor()) {
                Ok((line, next)) => r matches Ok(asset) && lists_asset(asset, line)
                    && final(self).cursor() == next,
                Err(e) => r matches Err(x) && x == e && final(self).cursor() == old(self).cursor(),
            },
    {
        let begin = self.pos;
        let name = match self.expect("name") {
            Ok(value) => match text_from_utf8(slice_to_vec(value)) {
                Some(name) => name,
                None => {
                    self.pos = begin;
                    return Err(ScanError::Grammar);
                },
            },
            Err(e) => {
                return Err(e);
            },
        };
        let balance = match self.expect("balance") {
            Ok(value) => {
                assert(value@.subrange(0, value@.len() as int) =~= value@);
                match Decimal::parse(value, 0, value.len()) {
                    Ok(balance) => balance,
                    Err(e) => {
                        self.pos = begin;
                        return Err(e);
                    },
                }
            },
            Err(e) => {
                self.pos = begin;
                return Err(e);
            },
        };
        Ok(Asset { name, balance })
    }

    /// Reads the lines of a symbol.  On an error the cursor stays where it
    /// was.
    pub fn parse_symbol(&mut self, limits: Thresholds) -> (r: Result<Symbol, ScanError>)
        requires
            old(self).wf(),
        ensures
            final(self).wf(),
            final(self).buffer() == old(self).buffer(),
            match symbol_at(old(self).buffer(), old(self).cursor()) {
                Ok((line, next)) => r matches Ok(symbol) && lists_symbol(symbol, line, limits)
                    && final(self).cursor() == next,
                Err(e) => r matches Err(x) && x == e && final(self).cursor() == old(self).cursor(),
            },
    {
        let begin = self.pos;
        let base = match self.expect("base") {
            Ok(value) => match text_from_utf8(slice_to_vec(value)) {
                Some(base) => base,
                None => {
                    self.pos = begin;
                    return Err(ScanError::Grammar);
                },
            },
            Err(e) => {
                return Err(e);
            },
        };
        let quote = match self.expect("quote") {
            Ok(value) => match text_from_utf8(slice_to_vec(value)) {
                Some(quote) => quote,
                None => {
                    self.pos = begin;
                    return Err(ScanError::Grammar);
                },
            },
            Err(e) => {
                self.pos = begin;
                return Err(e);
            },
        };
        let step_size = match self.expect("step-size") {
            Ok(value) => {
                assert(value@.subrange(0, value@.len() as int) =~= value@);
                match parse_integer(value, 0, value.len(), i32::MIN as i64, i32::MAX as i64) {
                    Ok(step) => step as i32,
                    Err(e) => {
                        self.pos = begin;
                        return Err(e);
                    },
                }
            },
            Err(e) => {
                self.pos = begin;
                return Err(e);
            },
        };
        Ok(Symbol::listed(base.as_str(), quote.as_str(), step_size, limits))
    }

    /// Reads every table of the cache.  The symbols come out flat, with
    /// `limits` as their thresholds.  On an error the cursor stays where it
    /// was.
    pub fn load_cache(&mut self, limits: Thresholds) -> (r: Result<
        (Vec<Asset>, Vec<Symbol>),
        ScanError,
    >)
        requires
            old(self).wf(),
        ensures
            final(self).wf(),
            final(self).buffer() == old(self).buffer(),
            match listing_from(
                old(self).buffer(),
                old(self).cursor(),
                Listing { assets: Seq::empty(), symbols: Seq::empty(), end: 0 },
            ) {
                Ok(listing) => r matches Ok((assets, symbols)) && final(self).cursor()
                    == listing.end && assets@.len() == listing.assets.len() && symbols@.len()
                    == listing.symbols.len() && (forall|i: int|
                    0 <= i < assets@.len() ==> lists_asset(#[trigger] assets@[i], listing.assets[i]))
                    && (forall|i: int|
                    0 <= i < symbols@.len() ==> lists_symbol(
                        #[trigger] symbols@[i],
                        listing.symbols[i],
                        limits,
                    )),
                Err(e) => r matches Err(x) && x == e && final(self).cursor() == old(self).cursor(),
            },
    {
        let begin = self.pos;
        let mut assets: Vec<Asset> = Vec::new();
        let mut symbols: Vec<Symbol> = Vec::new();
        let ghost mut seen = Listing { assets: Seq::empty(), symbols: Seq::empty(), end: 0 };
        let ghost whole = listing_from(self.slice@, begin as int, seen);
        loop
            invariant
                self.wf(),
                self.slice == old(self).slice,
                begin == old(self).pos,
                seen.end == 0,
                whole == listing_from(
                    self.slice@,
                    begin as int,
                    Listing { assets: Seq::empty(), symbols: Seq::empty(), end: 0 },
                ),
                whole == listing_from(self.slice@, self.pos as int, seen),
                assets@.len() == seen.assets.len(),
                symbols@.len() == seen.symbols.len(),
                forall|i: int| 0 <= i < assets@.len() ==> lists_asset(#[trigger] assets@[i], seen.assets[i]),
                forall|i: int|
                    0 <= i < symbols@.len() ==> lists_symbol(
                        #[trigger] symbols@[i],
                        seen.symbols[i],
                        limits,
                    ),
            decreases self.slice@.len() - self.pos,
        {
            proof {
                lemma_table_name(self.slice@, self.pos as int);
            }
            let ghost at = self.pos as int;
            let table = match self.next_table() {
                Ok(Some(table)) => table,
                Ok(None) => {
                    return Ok((assets, symbols));
                },
                Err(e) => {
                    self.pos = begin;
                    return Err(e);
                },
            };
            proof {
                lemma_asset_at(self.slice@, self.pos as int);
                lemma_symbol_at(self.slice@, self.pos as int);
            }
            assert(table@.subrange(0, table@.len() as int) =~= table@);
            if spells(table, 0, table.len(), "assets".as_bytes()) {
                match self.parse_asset() {
                    Ok(asset) => {
                        proof {
                            let name = table_name(self.slice@, at).unwrap().unwrap();
                            let line = asset_at(self.slice@, name.1).unwrap().0;
                            seen = Listing { assets: seen.assets.push(line), ..seen };
                        }
                        assets.push(asset);
                    },
                    Err(e) => {
                        self.pos = begin;
                        return Err(e);
                    },
                }
            } else if spells(table, 0, table.len(), "symbols".as_bytes()) {
                match self.parse_symbol(limits) {
                    Ok(symbol) => {
                        proof {
                            let name = table_name(self.slice@, at).unwrap().unwrap();
                            let line = symbol_at(self.slice@, name.1).unwrap().0;
                            seen = Listing { symbols: seen.symbols.push(line), ..seen };
                        }
                        symbols.push(symbol);
                    },
                    Err(e) => {
                        self.pos = begin;
                        return Err(e);
                    },
                }
            } else {
                self.pos = begin;
                return Err(ScanError::Grammar);
            }
        }
    }
}

} // verus!
