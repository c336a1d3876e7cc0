//! Candle payloads as they are written, and the proof that what is written
//! is read back: tokens set between quotes and commas come back by position,
//! rows set between brackets come back in their order.

use super::{price_column, row_of, rows_from, table_of, time_column, token, Kline};
use crate::finder::{
    first_at, is_digit, lemma_first_at_is, lemma_first_at_onward, lemma_first_at_shift, Mark,
    ScanError, CLOSE_SQUARE, COMMA, OPEN_SQUARE, POINT, QUOTE,
};
use crate::number::{decimal_of, integer_of, Decimal};
use vstd::prelude::*;

verus! {

/// Whether `t` can stand as a numeric token: it starts with a digit and holds
/// digits and points only.
pub open spec fn is_token(t: Seq<u8>) -> bool {
    &&& t.len() > 0
    &&& is_digit(t[0])
    &&& forall|i: int| 0 <= i < t.len() ==> is_digit(#[trigger] t[i]) || t[i] == POINT
}

/// Whether `g` can stand between tokens: it holds no digit.
pub open spec fn is_gap(g: Seq<u8>) -> bool {
    forall|i: int| 0 <= i < g.len() ==> !is_digit(#[trigger] g[i])
}

/// Whether `g` ends the token before it: it starts with a quote or a comma.
pub open spec fn closes(g: Seq<u8>) -> bool {
    g.len() > 0 && (g[0] == QUOTE || g[0] == COMMA)
}

/// Tokens set into gaps: each cell is a gap with the token behind it, and
/// `tail` comes behind the last token.
pub open spec fn weave(cells: Seq<(Seq<u8>, Seq<u8>)>, tail: Seq<u8>) -> Seq<u8>
    decreases cells.len(),
{
    if cells.len() == 0 {
        tail
    } else {
        cells[0].0 + cells[0].1 + weave(cells.drop_first(), tail)
    }
}

/// Whether the cells and the tail keep the tokens apart.
pub open spec fn woven(cells: Seq<(Seq<u8>, Seq<u8>)>, tail: Seq<u8>) -> bool {
    &&& closes(tail)
    &&& forall|k: int|
        0 <= k < cells.len() ==> is_gap((#[trigger] cells[k]).0) && is_token(cells[k].1) && (k > 0
            ==> closes(cells[k].0))
}

/// Where token `n` starts in the weave.
pub open spec fn token_offset(cells: Seq<(Seq<u8>, Seq<u8>)>, n: int) -> int
    decreases n,
{
    if n <= 0 {
        cells[0].0.len() as int
    } else {
        cells[0].0.len() + cells[0].1.len() + token_offset(cells.drop_first(), n - 1)
    }
}

/// The bounds of a token moved back by `by`.
pub open spec fn moved(bounds: Option<(int, int)>, by: int) -> Option<(int, int)> {
    match bounds {
        Some((start, end)) => Some((start + by, end + by)),
        None => None,
    }
}

/// The tokens in the back part of a sequence are the tokens of that part
/// alone.
pub proof fn lemma_token_shift(front: Seq<u8>, back: Seq<u8>, from: int, n: nat)
    requires
        0 <= from,
    ensures
        token(front + back, front.len() + from, n) == moved(token(back, from, n), front.len() as int),
    decreases n,
{
    let start = first_at(back, from, Mark::Digit);
    let end = first_at(back, start, Mark::Either(QUOTE, COMMA));
    lemma_first_at_onward(back, from, Mark::Digit);
    lemma_first_at_onward(back, start, Mark::Either(QUOTE, COMMA));
    lemma_first_at_shift(front, back, from, Mark::Digit);
    lemma_first_at_shift(front, back, start, Mark::Either(QUOTE, COMMA));
    if end < back.len() && n > 0 {
        lemma_token_shift(front, back, end + 1, (n - 1) as nat);
    }
}

/// A weave is never empty where its tail is not, and starts as its first
/// gap does.
pub proof fn lemma_weave_start(cells: Seq<(Seq<u8>, Seq<u8>)>, tail: Seq<u8>)
    requires
        woven(cells, tail),
    ensures
        weave(cells, tail).len() > 0,
        cells.len() > 0 && cells[0].0.len() > 0 ==> weave(cells, tail)[0] == cells[0].0[0],
        cells.len() == 0 ==> weave(cells, tail) == tail,
{
    if cells.len() > 0 {
        let rest = cells.drop_first();
        assert(is_token(cells[0].1));
    }
}

/// Tokens that are woven into gaps are read back by position: token `n` of
/// the weave is the token of cell `n`, byte for byte.
pub proof fn lemma_weave_token(cells: Seq<(Seq<u8>, Seq<u8>)>, tail: Seq<u8>, from: int, n: nat)
    requires
        woven(cells, tail),
        n < cells.len(),
        0 <= from <= cells[0].0.len(),
    ensures
        token(weave(cells, tail), from, n) == Some(
            (token_offset(cells, n as int), token_offset(cells, n as int) + cells[n as int].1.len()),
        ),
        weave(cells, tail).subrange(
            token_offset(cells, n as int),
            token_offset(cells, n as int) + cells[n as int].1.len(),
        ) == cells[n as int].1,
        0 <= token_offset(cells, n as int),
        token_offset(cells, n as int) + cells[n as int].1.len() < weave(cells, tail).len(),
    decreases n,
{
    let gap = cells[0].0;
    let word = cells[0].1;
    let rest = cells.drop_first();
    let after = weave(rest, tail);
    let s = weave(cells, tail);
    let front = gap + word;
    let g = gap.len() as int;
    let w = word.len() as int;
    assert(is_gap(gap) && is_token(word));
    assert(woven(rest, tail)) by {
        assert forall|k: int| 0 <= k < rest.len() implies is_gap((#[trigger] rest[k]).0) && is_token(
            rest[k].1,
        ) && (k > 0 ==> closes(rest[k].0)) by {
            assert(rest[k] == cells[k + 1]);
        }
    }
    lemma_weave_start(rest, tail);
    assert(closes(after) || (rest.len() > 0 && after[0] == rest[0].0[0])) by {
        if rest.len() > 0 {
            assert(rest[0] == cells[1]);
            assert(closes(rest[0].0));
        }
    }
    assert(s =~= front + after);
    assert(s[g + w] == after[0]);
    assert(s[g + w] == QUOTE || s[g + w] == COMMA) by {
        if rest.len() > 0 {
            assert(rest[0] == cells[1]);
        }
    }
    assert forall|i: int| from <= i < g implies !Mark::Digit.hits(#[trigger] s[i]) by {
        assert(s[i] == gap[i]);
    }
    assert(s[g] == word[0]);
    lemma_first_at_is(s, from, Mark::Digit, g);
    assert forall|i: int| g <= i < g + w implies !Mark::Either(QUOTE, COMMA).hits(
        #[trigger] s[i],
    ) by {
        assert(s[i] == word[i - g]);
    }
    lemma_first_at_is(s, g, Mark::Either(QUOTE, COMMA), g + w);
    if n == 0 {
        assert(s.subrange(g, g + w) =~= word);
    } else {
        assert(rest[0] == cells[1]);
        lemma_weave_token(rest, tail, 1, (n - 1) as nat);
        lemma_token_shift(front, after, 1, (n - 1) as nat);
        assert(rest[n - 1] == cells[n as int]);
        let a = token_offset(rest, n - 1);
        let b = a + cells[n as int].1.len();
        assert(s.subrange(g + w + a, g + w + b) =~= after.subrange(a, b));
    }
}

/// The cells of a row as the exchange writes it: the time bare behind the
/// opening bracket, each price in quotes behind a comma.
pub open spec fn row_cells(
    time: Seq<u8>,
    open: Seq<u8>,
    high: Seq<u8>,
    low: Seq<u8>,
    close: Seq<u8>,
) -> Seq<(Seq<u8>, Seq<u8>)> {
    seq![
        (seq![OPEN_SQUARE], time),
        (seq![COMMA, QUOTE], open),
        (seq![QUOTE, COMMA, QUOTE], high),
        (seq![QUOTE, COMMA, QUOTE], low),
        (seq![QUOTE, COMMA, QUOTE], close),
    ]
}

/// A row as the exchange writes it, without its closing bracket: the five
/// tokens, then whatever columns follow in `rest`.
pub open spec fn row_text(
    time: Seq<u8>,
    open: Seq<u8>,
    high: Seq<u8>,
    low: Seq<u8>,
    close: Seq<u8>,
    rest: Seq<u8>,
) -> Seq<u8> {
    weave(row_cells(time, open, high, low, close), seq![QUOTE] + rest)
}

/// The cells of a row keep its tokens apart.
proof fn lemma_row_woven(
    time: Seq<u8>,
    open: Seq<u8>,
    high: Seq<u8>,
    low: Seq<u8>,
    close: Seq<u8>,
    rest: Seq<u8>,
)
    requires
        is_token(time),
        is_token(open),
        is_token(high),
        is_token(low),
        is_token(close),
    ensures
        woven(row_cells(time, open, high, low, close), seq![QUOTE] + rest),
        row_cells(time, open, high, low, close).len() == 5,
        row_cells(time, open, high, low, close)[0].0.len() == 1,
        row_cells(time, open, high, low, close)[0].1 == time,
        row_cells(time, open, high, low, close)[1].1 == open,
        row_cells(time, open, high, low, close)[2].1 == high,
        row_cells(time, open, high, low, close)[3].1 == low,
        row_cells(time, open, high, low, close)[4].1 == close,
{
    let cells = row_cells(time, open, high, low, close);
    let tail = seq![QUOTE] + rest;
    assert(tail[0] == QUOTE);
    assert(is_gap(cells[0].0));
    assert(is_gap(cells[1].0) && closes(cells[1].0));
    assert(is_gap(cells[2].0) && closes(cells[2].0));
    assert(is_gap(cells[3].0) && closes(cells[3].0));
    assert(is_gap(cells[4].0) && closes(cells[4].0));
}

/// Token `n` of a row is the token that was written in column `n`.
proof fn lemma_row_token(cells: Seq<(Seq<u8>, Seq<u8>)>, tail: Seq<u8>, n: nat)
    requires
        woven(cells, tail),
        n < cells.len(),
    ensures
        token(weave(cells, tail), 0, n) matches Some((start, end)) && weave(cells, tail).subrange(
            start,
            end,
        ) == cells[n as int].1,
{
    lemma_weave_token(cells, tail, 0, n);
}

/// Writing five tokens as a row and reading the row back gives what the
/// tokens read as, each in its column.
pub proof fn lemma_row_round_trip(
    time: Seq<u8>,
    open: Seq<u8>,
    high: Seq<u8>,
    low: Seq<u8>,
    close: Seq<u8>,
    rest: Seq<u8>,
)
    requires
        is_token(time),
        is_token(open),
        is_token(high),
        is_token(low),
        is_token(close),
    ensures
        time_column(row_text(time, open, high, low, close, rest), 0) == integer_of(
            time,
            i64::MIN as int,
            i64::MAX as int,
        ),
        price_column(row_text(time, open, high, low, close, rest), 1) == decimal_of(open),
        price_column(row_text(time, open, high, low, close, rest), 2) == decimal_of(high),
        price_column(row_text(time, open, high, low, close, rest), 3) == decimal_of(low),
        price_column(row_text(time, open, high, low, close, rest), 4) == decimal_of(close),
{
    let cells = row_cells(time, open, high, low, close);
    let tail = seq![QUOTE] + rest;
    lemma_row_woven(time, open, high, low, close, rest);
    lemma_row_token(cells, tail, 0);
    lemma_row_token(cells, tail, 1);
    lemma_row_token(cells, tail, 2);
    lemma_row_token(cells, tail, 3);
    lemma_row_token(cells, tail, 4);
}

/// Five tokens that are numerals of their columns come back as the candle
/// they write.
pub proof fn lemma_row_reproduced(
    time: Seq<u8>,
    open: Seq<u8>,
    high: Seq<u8>,
    low: Seq<u8>,
    close: Seq<u8>,
    rest: Seq<u8>,
    kline: Kline,
)
    requires
        is_token(time),
        is_token(open),
        is_token(high),
        is_token(low),
        is_token(close),
        integer_of(time, i64::MIN as int, i64::MAX as int) == Ok::<int, ScanError>(
            kline.open_time as int,
        ),
        decimal_of(open) == Ok::<Decimal, ScanError>(kline.open),
        decimal_of(high) == Ok::<Decimal, ScanError>(kline.high),
        decimal_of(low) == Ok::<Decimal, ScanError>(kline.low),
        decimal_of(close) == Ok::<Decimal, ScanError>(kline.close),
    ensures
        row_of(row_text(time, open, high, low, close, rest)) == Ok::<Kline, ScanError>(kline),
{
    lemma_row_round_trip(time, open, high, low, close, rest);
}

/// Whether `r` is a row without its closing bracket: it opens with a bracket
/// and holds no other.
pub open spec fn is_row(r: Seq<u8>) -> bool {
    &&& r.len() > 0
    &&& r[0] == OPEN_SQUARE
    &&& forall|i: int| 0 < i < r.len() ==> #[trigger] r[i] != OPEN_SQUARE && r[i] != CLOSE_SQUARE
}

/// Whether `b` stands nowhere in `t`.
pub open spec fn free_of(t: Seq<u8>, b: u8) -> bool {
    forall|i: int| 0 <= i < t.len() ==> #[trigger] t[i] != b
}

/// A weave holds no byte that none of its gaps, its tokens and its tail
/// holds.
pub proof fn lemma_weave_free(cells: Seq<(Seq<u8>, Seq<u8>)>, tail: Seq<u8>, b: u8)
    requires
        free_of(tail, b),
        forall|k: int|
            0 <= k < cells.len() ==> free_of((#[trigger] cells[k]).0, b) && free_of(cells[k].1, b),
    ensures
        free_of(weave(cells, tail), b),
    decreases cells.len(),
{
    if cells.len() > 0 {
        let rest = cells.drop_first();
        assert forall|k: int| 0 <= k < rest.len() implies free_of((#[trigger] rest[k]).0, b)
            && free_of(rest[k].1, b) by {
            assert(rest[k] == cells[k + 1]);
        }
        lemma_weave_free(rest, tail, b);
        let gap = cells[0].0;
        let word = cells[0].1;
        let after = weave(rest, tail);
        let s = weave(cells, tail);
        assert(free_of(gap, b) && free_of(word, b));
        assert forall|i: int| 0 <= i < s.len() implies #[trigger] s[i] != b by {
            if i < gap.len() {
                assert(s[i] == gap[i]);
            } else if i < gap.len() + word.len() {
                assert(s[i] == word[i - gap.len()]);
            } else {
                assert(s[i] == after[i - gap.len() - word.len()]);
            }
        }
    }
}

/// A row that is written from five tokens opens with a bracket and holds no
/// other, as long as the columns behind the tokens hold none.
pub proof fn lemma_row_text_is_row(
    time: Seq<u8>,
    open: Seq<u8>,
    high: Seq<u8>,
    low: Seq<u8>,
    close: Seq<u8>,
    rest: Seq<u8>,
)
    requires
        is_token(time),
        is_token(open),
        is_token(high),
        is_token(low),
        is_token(close),
        free_of(rest, OPEN_SQUARE),
        free_of(rest, CLOSE_SQUARE),
    ensures
        is_row(row_text(time, open, high, low, close, rest)),
{
    let cells = row_cells(time, open, high, low, close);
    let tail = seq![QUOTE] + rest;
    let inner = cells.drop_first();
    let after = weave(inner, tail);
    let s = row_text(time, open, high, low, close, rest);
    assert(s =~= seq![OPEN_SQUARE] + time + after);
    assert forall|k: int| 0 <= k < cells.len() implies free_of((#[trigger] cells[k]).1, OPEN_SQUARE)
        && free_of(cells[k].1, CLOSE_SQUARE) by {
        let t = cells[k].1;
        assert(is_token(t));
        assert forall|i: int| 0 <= i < t.len() implies #[trigger] t[i] != OPEN_SQUARE && t[i]
            != CLOSE_SQUARE by {
            assert(is_digit(t[i]) || t[i] == POINT);
        }
    }
    assert forall|k: int| 0 <= k < inner.len() implies free_of(
        (#[trigger] inner[k]).0,
        OPEN_SQUARE,
    ) && free_of(inner[k].1, OPEN_SQUARE) && free_of(inner[k].0, CLOSE_SQUARE) && free_of(
        inner[k].1,
        CLOSE_SQUARE,
    ) by {
        assert(inner[k] == cells[k + 1]);
    }
    assert(free_of(tail, OPEN_SQUARE) && free_of(tail, CLOSE_SQUARE)) by {
        assert forall|i: int| 0 <= i < tail.len() implies #[trigger] tail[i] != OPEN_SQUARE
            && tail[i] != CLOSE_SQUARE by {
            if i > 0 {
                assert(tail[i] == rest[i - 1]);
            }
        }
    }
    lemma_weave_free(inner, tail, OPEN_SQUARE);
    lemma_weave_free(inner, tail, CLOSE_SQUARE);
    assert(free_of(time, OPEN_SQUARE) && free_of(time, CLOSE_SQUARE)) by {
        assert(cells[0].1 == time);
    }
    assert forall|i: int| 0 < i < s.len() implies #[trigger] s[i] != OPEN_SQUARE && s[i]
        != CLOSE_SQUARE by {
        if i < 1 + time.len() {
            assert(s[i] == time[i - 1]);
        } else {
            assert(s[i] == after[i - 1 - time.len()]);
        }
    }
}

/// Rows in a line, each closed by its bracket, with a comma between two.
pub open spec fn rows_text(rows: Seq<Seq<u8>>) -> Seq<u8>
    decreases rows.len(),
{
    if rows.len() == 0 {
        Seq::empty()
    } else if rows.len() == 1 {
        rows[0] + seq![CLOSE_SQUARE]
    } else {
        rows[0] + seq![CLOSE_SQUARE, COMMA] + rows_text(rows.drop_first())
    }
}

/// A payload as the exchange writes it: the rows inside an outer bracket.
pub open spec fn table_text(rows: Seq<Seq<u8>>) -> Seq<u8> {
    seq![OPEN_SQUARE] + rows_text(rows) + seq![CLOSE_SQUARE]
}

/// What the rows read as, one by one.
pub open spec fn each_row(rows: Seq<Seq<u8>>) -> Result<Seq<Kline>, ScanError>
    decreases rows.len(),
{
    if rows.len() == 0 {
        Ok(Seq::empty())
    } else {
        match (row_of(rows[0]), each_row(rows.drop_first())) {
            (Ok(row), Ok(rest)) => Ok(seq![row] + rest),
            (Err(e), _) => Err(e),
            (_, Err(e)) => Err(e),
        }
    }
}

/// The rows in the back part of a sequence are the rows of that part alone.
pub proof fn lemma_rows_shift(front: Seq<u8>, back: Seq<u8>, from: int)
    requires
        0 <= from,
    ensures
        rows_from(front + back, front.len() + from) == rows_from(back, from),
    decreases back.len() - from,
{
    let open = first_at(back, from, Mark::Byte(OPEN_SQUARE));
    let close = first_at(back, open, Mark::Byte(CLOSE_SQUARE));
    lemma_first_at_onward(back, from, Mark::Byte(OPEN_SQUARE));
    lemma_first_at_onward(back, open, Mark::Byte(CLOSE_SQUARE));
    lemma_first_at_shift(front, back, from, Mark::Byte(OPEN_SQUARE));
    lemma_first_at_shift(front, back, open, Mark::Byte(CLOSE_SQUARE));
    if close < back.len() {
        assert((front + back).subrange(front.len() + open, front.len() + close) =~= back.subrange(
            open,
            close,
        ));
        lemma_rows_shift(front, back, close + 1);
    }
}

/// Rows that are written in a line are read back one by one, whatever
/// follows them as long as it opens no bracket.
pub proof fn lemma_rows_round_trip(rows: Seq<Seq<u8>>, tail: Seq<u8>)
    requires
        forall|k: int| 0 <= k < rows.len() ==> is_row(#[trigger] rows[k]),
        forall|i: int| 0 <= i < tail.len() ==> #[trigger] tail[i] != OPEN_SQUARE,
    ensures
        rows_from(rows_text(rows) + tail, 0) == each_row(rows),
    decreases rows.len(),
{
    let s = rows_text(rows) + tail;
    if rows.len() == 0 {
        assert(s =~= tail);
        lemma_first_at_is(s, 0, Mark::Byte(OPEN_SQUARE), s.len() as int);
        lemma_first_at_onward(s, s.len() as int, Mark::Byte(CLOSE_SQUARE));
    } else {
        let row = rows[0];
        let rest = rows.drop_first();
        let r = row.len() as int;
        assert(is_row(row));
        assert forall|k: int| 0 <= k < rest.len() implies is_row(#[trigger] rest[k]) by {
            assert(rest[k] == rows[k + 1]);
        }
        let front = row + seq![CLOSE_SQUARE];
        let back = if rows.len() == 1 {
            tail
        } else {
            seq![COMMA] + (rows_text(rest) + tail)
        };
        assert(s =~= front + back);
        assert(s[0] == OPEN_SQUARE);
        assert(s[r] == CLOSE_SQUARE);
        assert forall|i: int| 0 <= i < r implies !Mark::Byte(CLOSE_SQUARE).hits(#[trigger] s[i]) by {
            assert(s[i] == row[i]);
        }
        lemma_first_at_is(s, 0, Mark::Byte(OPEN_SQUARE), 0);
        lemma_first_at_is(s, 0, Mark::Byte(CLOSE_SQUARE), r);
        assert(s.subrange(0, r) =~= row);
        lemma_rows_shift(front, back, 0);
        assert(rows_from(s, r + 1) == rows_from(back, 0));
        if rows.len() == 1 {
            assert(rest =~= Seq::<Seq<u8>>::empty());
            lemma_first_at_is(back, 0, Mark::Byte(OPEN_SQUARE), back.len() as int);
            lemma_first_at_onward(back, back.len() as int, Mark::Byte(CLOSE_SQUARE));
            assert(rows_from(back, 0) == each_row(rest));
        } else {
            let inner = rows_text(rest) + tail;
            lemma_rows_round_trip(rest, tail);
            lemma_rows_shift(seq![COMMA], inner, 0);
            assert(back[0] == COMMA);
            assert(first_at(back, 0, Mark::Byte(OPEN_SQUARE)) == first_at(
                back,
                1,
                Mark::Byte(OPEN_SQUARE),
            ));
            assert(rows_from(back, 0) == rows_from(back, 1));
        }
    }
}

/// Writing rows as a payload and reading the payload back gives what the
/// rows read as, in their order.
pub proof fn lemma_table_round_trip(rows: Seq<Seq<u8>>)
    requires
        forall|k: int| 0 <= k < rows.len() ==> is_row(#[trigger] rows[k]),
    ensures
        table_of(table_text(rows)) == each_row(rows),
{
    let tail = seq![CLOSE_SQUARE];
    lemma_rows_round_trip(rows, tail);
    lemma_rows_shift(seq![OPEN_SQUARE], rows_text(rows) + tail, 0);
    assert(table_text(rows) =~= seq![OPEN_SQUARE] + (rows_text(rows) + tail));
}

} // verus!
