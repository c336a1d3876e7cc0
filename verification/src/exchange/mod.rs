//! What the exchange speaks: candle intervals and candle rows.

pub mod binance;
pub mod document;
pub mod framing;
pub mod retry;

use crate::finder::{
    first_at, lemma_first_at, seek, Mark, ScanError, CLOSE_SQUARE, COMMA, OPEN_SQUARE, QUOTE,
};
use crate::number::{decimal_of, integer_of, integer_text, parse_integer, push_integer, Decimal};
use vstd::prelude::*;
use vstd::string::StringExecFns;

verus! {

/// The width of a candle.
#[derive(Debug, Clone, Copy, PartialEq, Eq, Structural)]
pub enum Interval {
    Minute(i64),
    Hour(i64),
    Day(i64),
    Week,
    Month,
}

impl Interval {
    /// The interval in milliseconds.  A month counts as thirty hours, the
    /// figure that the polling clock has always used.
    pub open spec fn millis(&self) -> int {
        match self {
            Interval::Minute(m) => m * 60_000,
            Interval::Hour(h) => h * 3_600_000,
            Interval::Day(d) => d * 86_400_000,
            Interval::Week => 604_800_000,
            Interval::Month => 108_000_000,
        }
    }

    /// How the exchange writes the interval: the count with `m`, `h` or
    /// `d` behind it, `1w` for a week, `1M` for a month.
    pub open spec fn label_text(&self) -> Seq<char> {
        match self {
            Interval::Minute(m) => integer_text(*m as int) + "m"@,
            Interval::Hour(h) => integer_text(*h as int) + "h"@,
            Interval::Day(d) => integer_text(*d as int) + "d"@,
            Interval::Week => "1w"@,
            Interval::Month => "1M"@,
        }
    }

    /// Writes the interval as the exchange names it.
    pub fn label(&self) -> (r: String)
        ensures
            r@ == self.label_text(),
    {
        let mut out = String::new();
        match self {
            Interval::Minute(m) => {
                push_integer(&mut out, *m);
                out.append("m");
            },
            Interval::Hour(h) => {
                push_integer(&mut out, *h);
                out.append("h");
            },
            Interval::Day(d) => {
                push_integer(&mut out, *d);
                out.append("d");
            },
            Interval::Week => {
                out.append("1w");
            },
            Interval::Month => {
                out.append("1M");
            },
        }
        assert(out@ =~= self.label_text());
        out
    }

    /// Whether the interval in milliseconds fits 64 bits.
    pub fn representable(&self) -> (r: bool)
        ensures
            r == (i64::MIN <= self.millis() <= i64::MAX),
    {
        match self {
            Interval::Minute(m) => -153_722_867_280_912 <= *m && *m <= 153_722_867_280_912,
            Interval::Hour(h) => -2_562_047_788_015 <= *h && *h <= 2_562_047_788_015,
            Interval::Day(d) => -106_751_991_167 <= *d && *d <= 106_751_991_167,
            Interval::Week => true,
            Interval::Month => true,
        }
    }

    /// The interval in milliseconds.
    pub fn to_millis(&self) -> (r: i64)
        requires
            i64::MIN <= self.millis() <= i64::MAX,
        ensures
            r == self.millis(),
    {
        match self {
            Interval::Minute(m) => *m * 60_000,
            Interval::Hour(h) => *h * 3_600_000,
            Interval::Day(d) => *d * 86_400_000,
            Interval::Week => 604_800_000,
            Interval::Month => 108_000_000,
        }
    }
}

/// One candle as the exchange writes it: the opening time in milliseconds and
/// the four prices, each read exactly.
#[derive(Debug, Clone, Copy, PartialEq, Eq, Structural)]
pub struct Kline {
    pub open_time: i64,
    pub open: Decimal,
    pub high: Decimal,
    pub low: Decimal,
    pub close: Decimal,
}

/// The zero decimal, which a column that is missing reads as.
pub open spec fn no_price() -> Decimal {
    Decimal { digits: 0, scale: 0 }
}

/// The bounds of the `n`-th numeric token at or after `from`: it starts at a
/// digit and runs up to the next quote or comma.  There is none where the
/// buffer ends first.
pub open spec fn token(s: Seq<u8>, from: int, n: nat) -> Option<(int, int)>
    decreases n,
{
    let start = first_at(s, from, Mark::Digit);
    let end = first_at(s, start, Mark::Either(QUOTE, COMMA));
    if end >= s.len() {
        None
    } else if n == 0 {
        Some((start, end))
    } else {
        token(s, end + 1, (n - 1) as nat)
    }
}

/// The `n`-th token as a time: zero where the token is missing.
pub open spec fn time_column(s: Seq<u8>, n: nat) -> Result<int, ScanError> {
    match token(s, 0, n) {
        None => Ok(0),
        Some((start, end)) => integer_of(s.subrange(start, end), i64::MIN as int, i64::MAX as int),
    }
}

/// The `n`-th token as a price: zero where the token is missing.
pub open spec fn price_column(s: Seq<u8>, n: nat) -> Result<Decimal, ScanError> {
    match token(s, 0, n) {
        None => Ok(no_price()),
        Some((start, end)) => decimal_of(s.subrange(start, end)),
    }
}

/// The candle that a row spells: its first five numeric tokens, by position.
/// The first token that is no numeral of its column's kind fails the row.
pub open spec fn row_of(s: Seq<u8>) -> Result<Kline, ScanError> {
    match (
        time_column(s, 0),
        price_column(s, 1),
        price_column(s, 2),
        price_column(s, 3),
        price_column(s, 4),
    ) {
        (Ok(open_time), Ok(open), Ok(high), Ok(low), Ok(close)) => Ok(
            Kline { open_time: open_time as i64, open, high, low, close },
        ),
        (Err(e), _, _, _, _) => Err(e),
        (_, Err(e), _, _, _) => Err(e),
        (_, _, Err(e), _, _) => Err(e),
        (_, _, _, Err(e), _) => Err(e),
        (_, _, _, _, Err(e)) => Err(e),
    }
}

/// The candles of the rows that open at or after `from`.  A row runs from an
/// opening bracket up to the next closing bracket.
pub open spec fn rows_from(s: Seq<u8>, from: int) -> Result<Seq<Kline>, ScanError>
    decreases s.len() - from,
    via rows_from_decreases
{
    let open = first_at(s, from, Mark::Byte(OPEN_SQUARE));
    let close = first_at(s, open, Mark::Byte(CLOSE_SQUARE));
    if close >= s.len() {
        Ok(Seq::empty())
    } else {
        match (row_of(s.subrange(open, close)), rows_from(s, close + 1)) {
            (Ok(row), Ok(rest)) => Ok(seq![row] + rest),
            (Err(e), _) => Err(e),
            (_, Err(e)) => Err(e),
        }
    }
}

#[via_fn]
proof fn rows_from_decreases(s: Seq<u8>, from: int) {
    let open = first_at(s, from, Mark::Byte(OPEN_SQUARE));
    if from <= s.len() {
        lemma_first_at(s, from, Mark::Byte(OPEN_SQUARE));
        lemma_first_at(s, open, Mark::Byte(CLOSE_SQUARE));
    }
}

/// The candles of a payload: the rows inside its outer bracket.
pub open spec fn table_of(s: Seq<u8>) -> Result<Seq<Kline>, ScanError> {
    rows_from(s, 1)
}

/// The token behind the `n`-th is the first token behind the `n`-th's end.
pub proof fn lemma_token_step(s: Seq<u8>, from: int, n: nat)
    ensures
        token(s, from, n + 1) == match token(s, from, n) {
            None => None,
            Some((start, end)) => token(s, end + 1, 0),
        },
    decreases n,
{
    let start = first_at(s, from, Mark::Digit);
    let end = first_at(s, start, Mark::Either(QUOTE, COMMA));
    if end < s.len() && n > 0 {
        lemma_token_step(s, end + 1, (n - 1) as nat);
    }
}

/// The first numeric token at or after `from`.
pub fn next_token(s: &[u8], from: usize) -> (r: Option<(usize, usize)>)
    requires
        from <= s@.len(),
    ensures
        match r {
            Some((start, end)) => token(s@, from as int, 0) == Some((start as int, end as int))
                && from <= start <= end < s@.len(),
            None => token(s@, from as int, 0).is_none(),
        },
{
    let start = seek(s, from, Mark::Digit);
    let end = seek(s, start, Mark::Either(QUOTE, COMMA));
    if end >= s.len() {
        None
    } else {
        Some((start, end))
    }
}

/// Reads the token at `from`, which is the `n`-th of the row, as a time.
fn read_time(s: &[u8], from: usize, Ghost(n): Ghost<nat>) -> (r: Result<(i64, usize), ScanError>)
    requires
        from <= s@.len(),
        token(s@, 0, n) == token(s@, from as int, 0),
    ensures
        match r {
            Ok((v, next)) => time_column(s@, n) == Ok::<int, ScanError>(v as int) && next
                <= s@.len() && token(s@, 0, n + 1) == token(s@, next as int, 0),
            Err(e) => time_column(s@, n) == Err::<int, ScanError>(e),
        },
{
    proof {
        lemma_token_step(s@, 0, n);
    }
    let len = s.len();
    match next_token(s, from) {
        None => Ok((0, len)),
        Some((start, end)) => match parse_integer(s, start, end, i64::MIN, i64::MAX) {
            Ok(v) => Ok((v, end + 1)),
            Err(e) => Err(e),
        },
    }
}

/// Reads the token at `from`, which is the `n`-th of the row, as a price.
fn read_price(s: &[u8], from: usize, Ghost(n): Ghost<nat>) -> (r: Result<
    (Decimal, usize),
    ScanError,
>)
    requires
        from <= s@.len(),
        token(s@, 0, n) == token(s@, from as int, 0),
    ensures
        match r {
            Ok((v, next)) => price_column(s@, n) == Ok::<Decimal, ScanError>(v) && next
                <= s@.len() && token(s@, 0, n + 1) == token(s@, next as int, 0),
            Err(e) => price_column(s@, n) == Err::<Decimal, ScanError>(e),
        },
{
    proof {
        lemma_token_step(s@, 0, n);
    }
    let len = s.len();
    match next_token(s, from) {
        None => Ok((Decimal { digits: 0, scale: 0 }, len)),
        Some((start, end)) => match Decimal::parse(s, start, end) {
            Ok(v) => Ok((v, end + 1)),
            Err(e) => Err(e),
        },
    }
}

impl Default for Kline {
    fn default() -> (r: Self)
        ensures
            r == (Kline {
                open_time: 0,
                open: no_price(),
                high: no_price(),
                low: no_price(),
                close: no_price(),
            }),
    {
        let zero = Decimal { digits: 0, scale: 0 };
        Kline { open_time: 0, open: zero, high: zero, low: zero, close: zero }
    }
}

impl Kline {
    /// Overwrites this candle with another.
    pub fn update(&mut self, kline: &Self)
        ensures
            *final(self) == *kline,
    {
        self.open_time = kline.open_time;
        self.open = kline.open;
        self.high = kline.high;
        self.low = kline.low;
        self.close = kline.close;
    }

    /// Reads the candles of a payload, row by row.  `capacity` is the number
    /// of rows to make room for at the outset.
    pub fn parse_2d_array(slice: &[u8], capacity: usize) -> (r: Result<Vec<Self>, ScanError>)
        ensures
            match table_of(slice@) {
                Ok(rows) => r matches Ok(klines) && klines@ == rows,
                Err(e) => r matches Err(x) && x == e,
            },
    {
        let mut klines: Vec<Kline> = Vec::with_capacity(capacity);
        if slice.len() == 0 {
            return Ok(klines);
        }
        let mut pos: usize = 1;
        loop
            invariant
                1 <= pos <= slice@.len(),
                table_of(slice@) == match rows_from(slice@, pos as int) {
                    Ok(rest) => Ok::<Seq<Kline>, ScanError>(klines@ + rest),
                    Err(e) => Err(e),
                },
            decreases slice@.len() - pos,
        {
            let open = seek(slice, pos, Mark::Byte(OPEN_SQUARE));
            let close = seek(slice, open, Mark::Byte(CLOSE_SQUARE));
            if close >= slice.len() {
                assert(klines@ + Seq::<Kline>::empty() =~= klines@);
                return Ok(klines);
            }
            let row = vstd::slice::slice_subrange(slice, open, close);
            match Self::parse_array(row) {
                Ok(kline) => {
                    proof {
                        let ghost before = klines@;
                        match rows_from(slice@, close + 1) {
                            Ok(rest) => {
                                assert(before.push(kline) + rest =~= before + (seq![kline] + rest));
                            },
                            Err(_) => {},
                        }
                    }
                    klines.push(kline);
                    pos = close + 1;
                },
                Err(e) => {
                    return Err(e);
                },
            }
        }
    }

    /// Reads one candle: the first five numeric tokens of `slice`, by
    /// position.  A column that the buffer does not reach reads as zero.
    pub fn parse_array(slice: &[u8]) -> (r: Result<Self, ScanError>)
        ensures
            r == row_of(slice@),
    {
        let (open_time, next) = match read_time(slice, 0, Ghost(0)) {
            Ok(pair) => pair,
            Err(e) => {
                return Err(e);
            },
        };
        let (open, next) = match read_price(slice, next, Ghost(1)) {
            Ok(pair) => pair,
            Err(e) => {
                return Err(e);
            },
        };
        let (high, next) = match read_price(slice, next, Ghost(2)) {
            Ok(pair) => pair,
            Err(e) => {
                return Err(e);
            },
        };
        let (low, next) = match read_price(slice, next, Ghost(3)) {
            Ok(pair) => pair,
            Err(e) => {
                return Err(e);
            },
        };
        let (close, _) = match read_price(slice, next, Ghost(4)) {
            Ok(pair) => pair,
            Err(e) => {
                return Err(e);
            },
        };
        Ok(Kline { open_time, open, high, low, close })
    }
}

/// Candles by column: one sequence for each field, all of one length.
#[derive(Debug)]
pub struct Series {
    pub open_time: Vec<i64>,
    pub open: Vec<Decimal>,
    pub high: Vec<Decimal>,
    pub low: Vec<Decimal>,
    pub close: Vec<Decimal>,
}

impl Series {
    /// The columns are of one length.
    pub open spec fn wf(&self) -> bool {
        &&& self.open@.len() == self.open_time@.len()
        &&& self.high@.len() == self.open_time@.len()
        &&& self.low@.len() == self.open_time@.len()
        &&& self.close@.len() == self.open_time@.len()
    }

    /// The candles that the columns hold, row by row.
    pub open spec fn rows(&self) -> Seq<Kline> {
        Seq::new(
            self.open_time@.len(),
            |i: int|
                Kline {
                    open_time: self.open_time@[i],
                    open: self.open@[i],
                    high: self.high@[i],
                    low: self.low@[i],
                    close: self.close@[i],
                },
        )
    }

    /// Turns rows into columns.
    pub fn from_rows(klines: &Vec<Kline>) -> (r: Self)
        ensures
            r.wf(),
            r.rows() == klines@,
    {
        let mut series = Series {
            open_time: Vec::new(),
            open: Vec::new(),
            high: Vec::new(),
            low: Vec::new(),
            close: Vec::new(),
        };
        let mut i: usize = 0;
        while i < klines.len()
            invariant
                i <= klines@.len(),
                series.wf(),
                series.open_time@.len() == i,
                series.rows() == klines@.subrange(0, i as int),
            decreases klines@.len() - i,
        {
            let kline = klines[i];
            let ghost before = series.rows();
            series.open_time.push(kline.open_time);
            series.open.push(kline.open);
            series.high.push(kline.high);
            series.low.push(kline.low);
            series.close.push(kline.close);
            i += 1;
            assert(series.rows() =~= before.push(kline));
            assert(klines@.subrange(0, i as int) =~= before.push(kline));
        }
        assert(klines@.subrange(0, i as int) =~= klines@);
        series
    }

    /// Whether the opening times of `rows` grow from each row to the next.
    pub open spec fn increasing(rows: Seq<Kline>) -> bool {
        forall|i: int, j: int| 0 <= i < j < rows.len() ==> rows[i].open_time < rows[j].open_time
    }

    /// Whether the candles come in the order of their opening times, no two
    /// at one time: what a loaded series owes the indicators.
    pub fn is_ordered(&self) -> (r: bool)
        requires
            self.wf(),
        ensures
            r == Self::increasing(self.rows()),
    {
        let n = self.open_time.len();
        let mut i: usize = 1;
        while i < n
            invariant
                self.wf(),
                n == self.open_time@.len(),
                1 <= i,
                forall|a: int, b: int|
                    0 <= a < b < i && b < n ==> self.open_time@[a] < self.open_time@[b],
            decreases n - i,
        {
            if self.open_time[i - 1] >= self.open_time[i] {
                assert(self.rows()[i - 1].open_time >= self.rows()[i as int].open_time);
                return false;
            }
            assert forall|a: int, b: int| 0 <= a < b < i + 1 && b < n implies self.open_time@[a]
                < self.open_time@[b] by {
                if b == i && a < i - 1 {
                    assert(self.open_time@[a] < self.open_time@[i - 1]);
                }
            }
            i += 1;
        }
        true
    }

    /// How many candles there are.
    pub fn len(&self) -> (r: usize)
        ensures
            r == self.open_time@.len(),
    {
        self.open_time.len()
    }

    /// The candle in row `i`.
    pub fn row(&self, i: usize) -> (r: Kline)
        requires
            self.wf(),
            i < self.open_time@.len(),
        ensures
            r == self.rows()[i as int],
    {
        Kline {
            open_time: self.open_time[i],
            open: self.open[i],
            high: self.high[i],
            low: self.low[i],
            close: self.close[i],
        }
    }

    /// Reads the candles of a payload into columns.
    pub fn parse(slice: &[u8], capacity: usize) -> (r: Result<Self, ScanError>)
        ensures
            match table_of(slice@) {
                Ok(rows) => r matches Ok(series) && series.wf() && series.rows() == rows,
                Err(e) => r matches Err(x) && x == e,
            },
    {
        match Kline::parse_2d_array(slice, capacity) {
            Ok(klines) => Ok(Self::from_rows(&klines)),
            Err(e) => Err(e),
        }
    }
}

} // verus!
