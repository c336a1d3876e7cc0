//! The windowed indicators that only order and move their samples.
//!
//! A sample is a 64-bit key.  The indicators here compare keys and carry them
//! around; they never calculate with them, so any encoding that keeps the
//! order of the measured values will do.

use vstd::prelude::*;

verus! {

/// The samples that a window of `period` holds after `fed` was fed: the last
/// `period` of them, or all where fewer were fed.
pub open spec fn recent(fed: Seq<i64>, period: int) -> Seq<i64> {
    if fed.len() <= period {
        fed
    } else {
        fed.subrange(fed.len() - period, fed.len() as int)
    }
}

/// Whether `m` is the greatest sample of `s`.
pub open spec fn is_maximum(m: i64, s: Seq<i64>) -> bool {
    s.contains(m) && forall|i: int| 0 <= i < s.len() ==> s[i] <= m
}

/// Whether `m` is the least sample of `s`.
pub open spec fn is_minimum(m: i64, s: Seq<i64>) -> bool {
    s.contains(m) && forall|i: int| 0 <= i < s.len() ==> s[i] >= m
}

/// Whether slot `m` holds a greatest value of `values`.
pub open spec fn tops(values: Seq<i64>, m: int) -> bool {
    0 <= m < values.len() && forall|j: int| 0 <= j < values.len() ==> #[trigger] values[j] <= values[m]
}

/// Whether slot `m` holds a least value of `values`.
pub open spec fn bottoms(values: Seq<i64>, m: int) -> bool {
    0 <= m < values.len() && forall|j: int| 0 <= j < values.len() ==> #[trigger] values[j] >= values[m]
}

/// What slot `j` of a ring of `period` slots holds when the write cursor
/// stands at `cursor` after `fed` was fed: the sample written there last, or
/// `blank` where none was.
pub open spec fn slot(fed: Seq<i64>, period: int, cursor: int, j: int, blank: i64) -> i64 {
    let base = fed.len() - cursor;
    if j < cursor {
        fed[base + j]
    } else if base >= period {
        fed[base - period + j]
    } else {
        blank
    }
}

/// Whether `values` is the ring that `fed` leaves behind.
pub open spec fn ring(values: Seq<i64>, fed: Seq<i64>, cursor: int, blank: i64) -> bool {
    &&& 0 <= cursor <= fed.len()
    &&& cursor < values.len()
    &&& fed.len() - cursor == 0 || fed.len() - cursor >= values.len()
    &&& forall|j: int|
        0 <= j < values.len() ==> values[j] == slot(fed, values.len() as int, cursor, j, blank)
}

/// Writing a sample under the cursor and moving the cursor on gives the ring
/// of the longer history.
pub proof fn lemma_ring_push(values: Seq<i64>, fed: Seq<i64>, cursor: int, blank: i64, sample: i64)
    requires
        ring(values, fed, cursor, blank),
    ensures
        ring(
            values.update(cursor, sample),
            fed.push(sample),
            if cursor + 1 < values.len() {
                cursor + 1
            } else {
                0
            },
            blank,
        ),
{
    let after = values.update(cursor, sample);
    let longer = fed.push(sample);
    let next = if cursor + 1 < values.len() {
        cursor + 1
    } else {
        0
    };
    assert forall|j: int| 0 <= j < after.len() implies after[j] == slot(
        longer,
        after.len() as int,
        next,
        j,
        blank,
    ) by {
        assert(values[j] == slot(fed, values.len() as int, cursor, j, blank));
    }
}

/// Every sample of the window stands in a slot of the ring, and every slot
/// that was written holds a sample of the window.
pub proof fn lemma_ring_window(values: Seq<i64>, fed: Seq<i64>, cursor: int, blank: i64)
    requires
        ring(values, fed, cursor, blank),
    ensures
        forall|i: int|
            0 <= i < recent(fed, values.len() as int).len() ==> values.contains(
                #[trigger] recent(fed, values.len() as int)[i],
            ),
        forall|j: int|
            0 <= j < values.len() && (j < cursor || fed.len() - cursor >= values.len())
                ==> recent(fed, values.len() as int).contains(#[trigger] values[j]),
{
    let period = values.len() as int;
    let window = recent(fed, period);
    let base = fed.len() - cursor;
    let low = fed.len() - window.len();
    assert forall|i: int| 0 <= i < window.len() implies values.contains(#[trigger] window[i]) by {
        let k = low + i;
        let j = if k >= base {
            k - base
        } else {
            k - base + period
        };
        assert(values[j] == slot(fed, period, cursor, j, blank));
        assert(values[j] == window[i]);
    }
    assert forall|j: int|
        0 <= j < values.len() && (j < cursor || fed.len() - cursor >= values.len())
        implies window.contains(#[trigger] values[j]) by {
        assert(values[j] == slot(fed, period, cursor, j, blank));
        let k = if j < cursor {
            base + j
        } else {
            base - period + j
        };
        assert(window[k - low] == values[j]);
    }
}

/// The greatest of the last `period` samples.
pub struct Maximum {
    period: usize,
    max_index: usize,
    cur_index: usize,
    values: Vec<i64>,
    fed: Ghost<Seq<i64>>,
}

impl Maximum {
    /// Every sample fed so far, oldest first.
    pub closed spec fn history(&self) -> Seq<i64> {
        self.fed@
    }

    /// The width of the window.
    pub closed spec fn span(&self) -> int {
        self.period as int
    }

    /// The samples in the window, oldest first.
    pub open spec fn window(&self) -> Seq<i64> {
        recent(self.history(), self.span())
    }

    pub closed spec fn wf(&self) -> bool {
        &&& self.values@.len() == self.period
        &&& self.period > 0 ==> {
            &&& ring(self.values@, self.fed@, self.cur_index as int, i64::MIN)
            &&& tops(self.values@, self.max_index as int)
        }
    }

    pub fn new(period: usize) -> (r: Self)
        ensures
            r.wf(),
            r.span() == period,
            r.history() == Seq::<i64>::empty(),
    {
        let mut values: Vec<i64> = Vec::new();
        let mut i: usize = 0;
        while i < period
            invariant
                i <= period,
                values@.len() == i,
                forall|j: int| 0 <= j < i ==> values@[j] == i64::MIN,
            decreases period - i,
        {
            values.push(i64::MIN);
            i += 1;
        }
        Self { period, max_index: 0, cur_index: 0, values, fed: Ghost(Seq::empty()) }
    }

    /// The first slot that holds the greatest value of the ring.
    fn find_max_index(&self) -> (r: usize)
        requires
            self.values@.len() == self.period,
            self.period > 0,
        ensures
            tops(self.values@, r as int),
    {
        let mut max: i64 = i64::MIN;
        let mut index: usize = 0;
        let mut i: usize = 0;
        while i < self.values.len()
            invariant
                self.values@.len() == self.period,
                self.period > 0,
                i <= self.period,
                index < self.period,
                max <= self.values@[index as int],
                forall|j: int| 0 <= j < i ==> #[trigger] self.values@[j] <= max,
            decreases self.period - i,
        {
            let val = self.values[i];
            if max < val {
                max = val;
                index = i;
            }
            i += 1;
        }
        index
    }

    /// Feeds one sample.
    pub fn next(&mut self, price: i64)
        requires
            old(self).wf(),
            old(self).span() > 0,
        ensures
            final(self).wf(),
            final(self).span() == old(self).span(),
            final(self).history() == old(self).history().push(price),
    {
        proof {
            lemma_ring_push(self.values@, self.fed@, self.cur_index as int, i64::MIN, price);
        }
        let ghost before = self.values@;
        self.values.set(self.cur_index, price);
        self.fed = Ghost(self.fed@.push(price));
        if price > self.values[self.max_index] {
            self.max_index = self.cur_index;
        } else if self.max_index == self.cur_index {
            self.max_index = self.find_max_index();
        } else {
            assert forall|j: int| 0 <= j < self.period implies #[trigger] self.values@[j]
                <= self.values@[self.max_index as int] by {
                assert(before[j] <= before[self.max_index as int]);
            }
        }
        self.cur_index = if self.cur_index + 1 < self.period {
            self.cur_index + 1
        } else {
            0
        };
    }

    /// The greatest sample of the window; before the first sample, the least
    /// key there is; nothing from a window of no width.
    pub fn get(&self) -> (r: Option<i64>)
        requires
            self.wf(),
        ensures
            self.span() == 0 ==> r.is_none(),
            self.span() > 0 && self.history().len() == 0 ==> r == Some(i64::MIN),
            self.span() > 0 && self.history().len() > 0 ==> r.is_some() && is_maximum(
                r.unwrap(),
                self.window(),
            ),
    {
        if self.max_index < self.values.len() {
            proof {
                if self.fed@.len() > 0 {
                    self.lemma_greatest();
                }
            }
            Some(self.values[self.max_index])
        } else {
            None
        }
    }

    /// The slot that `max_index` names holds the greatest sample of the
    /// window.
    proof fn lemma_greatest(&self)
        requires
            self.wf(),
            self.period > 0,
            self.fed@.len() > 0,
        ensures
            is_maximum(self.values@[self.max_index as int], self.window()),
    {
        let values = self.values@;
        let window = self.window();
        let top = values[self.max_index as int];
        lemma_ring_window(values, self.fed@, self.cur_index as int, i64::MIN);
        assert forall|i: int| 0 <= i < window.len() implies window[i] <= top by {
            assert(values.contains(window[i]));
            let j = choose|j: int| 0 <= j < values.len() && values[j] == window[i];
            assert(values[j] <= top);
        }
        let m = self.max_index as int;
        if m < self.cur_index || self.fed@.len() - self.cur_index >= values.len() {
            assert(window.contains(values[m]));
        } else {
            assert(values[m] == slot(self.fed@, values.len() as int, self.cur_index as int, m, i64::MIN));
            assert(top == i64::MIN);
            assert(window[0] <= top);
            assert(window[0] == top);
        }
    }
}

/// The least of the last `period` samples.
pub struct Minimum {
    period: usize,
    min_index: usize,
    cur_index: usize,
    values: Vec<i64>,
    fed: Ghost<Seq<i64>>,
}

impl Minimum {
    /// Every sample fed so far, oldest first.
    pub closed spec fn history(&self) -> Seq<i64> {
        self.fed@
    }

    /// The width of the window.
    pub closed spec fn span(&self) -> int {
        self.period as int
    }

    /// The samples in the window, oldest first.
    pub open spec fn window(&self) -> Seq<i64> {
        recent(self.history(), self.span())
    }

    pub closed spec fn wf(&self) -> bool {
        &&& self.values@.len() == self.period
        &&& self.period > 0 ==> {
            &&& ring(self.values@, self.fed@, self.cur_index as int, i64::MAX)
            &&& bottoms(self.values@, self.min_index as int)
        }
    }

    pub fn new(period: usize) -> (r: Self)
        ensures
            r.wf(),
            r.span() == period,
            r.history() == Seq::<i64>::empty(),
    {
        let mut values: Vec<i64> = Vec::new();
        let mut i: usize = 0;
        while i < period
            invariant
                i <= period,
                values@.len() == i,
                forall|j: int| 0 <= j < i ==> values@[j] == i64::MAX,
            decreases period - i,
        {
            values.push(i64::MAX);
            i += 1;
        }
        Self { period, min_index: 0, cur_index: 0, values, fed: Ghost(Seq::empty()) }
    }

    /// The first slot that holds the least value of the ring.
    fn find_min_index(&self) -> (r: usize)
        requires
            self.values@.len() == self.period,
            self.period > 0,
        ensures
            bottoms(self.values@, r as int),
    {
        let mut min: i64 = i64::MAX;
        let mut index: usize = 0;
        let mut i: usize = 0;
        while i < self.values.len()
            invariant
                self.values@.len() == self.period,
                self.period > 0,
                i <= self.period,
                index < self.period,
                min >= self.values@[index as int],
                forall|j: int| 0 <= j < i ==> #[trigger] self.values@[j] >= min,
            decreases self.period - i,
        {
            let val = self.values[i];
            if min > val {
                min = val;
                index = i;
            }
            i += 1;
        }
        index
    }

    /// Feeds one sample.
    pub fn next(&mut self, price: i64)
        requires
            old(self).wf(),
            old(self).span() > 0,
        ensures
            final(self).wf(),
            final(self).span() == old(self).span(),
            final(self).history() == old(self).history().push(price),
    {
        proof {
            lemma_ring_push(self.values@, self.fed@, self.cur_index as int, i64::MAX, price);
        }
        let ghost before = self.values@;
        self.values.set(self.cur_index, price);
        self.fed = Ghost(self.fed@.push(price));
        if price < self.values[self.min_index] {
            self.min_index = self.cur_index;
        } else if self.min_index == self.cur_index {
            self.min_index = self.find_min_index();
        } else {
            assert forall|j: int| 0 <= j < self.period implies #[trigger] self.values@[j]
                >= self.values@[self.min_index as int] by {
                assert(before[j] >= before[self.min_index as int]);
            }
        }
        self.cur_index = if self.cur_index + 1 < self.period {
            self.cur_index + 1
        } else {
            0
        };
    }

    /// The least sample of the window; before the first sample, the greatest
    /// key there is; nothing from a window of no width.
    pub fn get(&self) -> (r: Option<i64>)
        requires
            self.wf(),
        ensures
            self.span() == 0 ==> r.is_none(),
            self.span() > 0 && self.history().len() == 0 ==> r == Some(i64::MAX),
            self.span() > 0 && self.history().len() > 0 ==> r.is_some() && is_minimum(
                r.unwrap(),
                self.window(),
            ),
    {
        if self.min_index < self.values.len() {
            proof {
                if self.fed@.len() > 0 {
                    self.lemma_least();
                }
            }
            Some(self.values[self.min_index])
        } else {
            None
        }
    }

    /// The slot that `min_index` names holds the least sample of the
    /// window.
    proof fn lemma_least(&self)
        requires
            self.wf(),
            self.period > 0,
            self.fed@.len() > 0,
        ensures
            is_minimum(self.values@[self.min_index as int], self.window()),
    {
        let values = self.values@;
        let window = self.window();
        let top = values[self.min_index as int];
        lemma_ring_window(values, self.fed@, self.cur_index as int, i64::MAX);
        assert forall|i: int| 0 <= i < window.len() implies window[i] >= top by {
            assert(values.contains(window[i]));
            let j = choose|j: int| 0 <= j < values.len() && values[j] == window[i];
            assert(values[j] >= top);
        }
        let m = self.min_index as int;
        if m < self.cur_index || self.fed@.len() - self.cur_index >= values.len() {
            assert(window.contains(values[m]));
        } else {
            assert(values[m] == slot(self.fed@, values.len() as int, self.cur_index as int, m, i64::MAX));
            assert(top == i64::MAX);
            assert(window[0] >= top);
            assert(window[0] == top);
        }
    }
}

/// A window holds as many samples as were fed, up to its width.
pub proof fn lemma_recent_len(fed: Seq<i64>, period: int)
    requires
        period >= 0,
    ensures
        recent(fed, period).len() == if fed.len() <= period {
            fed.len() as int
        } else {
            period
        },
{
}

/// A sequence has one greatest and one least sample at most.
pub proof fn lemma_extremes_unique(s: Seq<i64>, a: i64, b: i64)
    ensures
        is_maximum(a, s) && is_maximum(b, s) ==> a == b,
        is_minimum(a, s) && is_minimum(b, s) ==> a == b,
{
}

/// The state of the sequence counter, as mathematics sees it.
pub struct Setup {
    /// The highs, lows and closes of the last five candles, in ring order.
    pub highs: Seq<i64>,
    pub lows: Seq<i64>,
    pub closes: Seq<i64>,
    /// The slot that the next candle goes to.
    pub index: int,
    /// How many candles have been fed, up to four.
    pub seen: int,
    /// The length of the running buy setup: closes that are not above the
    /// close four candles earlier.
    pub buy: int,
    /// The length of the running sell setup: closes above the close four
    /// candles earlier.
    pub sell: int,
    /// What the last completed setup was judged to be.
    pub perfect: bool,
    pub support: i64,
    pub resistance: i64,
}

impl Setup {
    /// The slot behind `index`, which holds the candle four feeds back.
    pub open spec fn behind(index: int) -> int {
        if index == 4 {
            0
        } else {
            index + 1
        }
    }

    /// The counter with its sign: negative while a buy setup runs, positive
    /// while a sell setup runs.
    pub open spec fn count(self) -> int {
        if self.buy > 0 {
            -self.buy
        } else {
            self.sell
        }
    }

    pub open spec fn wf(self) -> bool {
        &&& self.highs.len() == 5
        &&& self.lows.len() == 5
        &&& self.closes.len() == 5
        &&& 0 <= self.index <= 4
        &&& 0 <= self.seen <= 4
        &&& self.seen < 4 ==> self.index == self.seen && self.buy == 0 && self.sell == 0
        &&& 0 <= self.buy <= 9
        &&& 0 <= self.sell <= 9
        &&& self.buy == 0 || self.sell == 0
    }

    /// The close that a candle fed now is held against: the close four
    /// candles earlier.
    pub open spec fn reference(self) -> i64 {
        self.closes[Self::behind(self.index)]
    }

    /// Whether a candle fed now with this close falls into the buy setup: it
    /// does not close above the reference.  A close equal to the reference
    /// counts as a close below it.
    pub open spec fn falls(self, close: i64) -> bool {
        self.reference() >= close
    }

    /// The verdict on a completed buy setup whose ninth candle has the low
    /// `low`: the eighth or the ninth low lies under both the sixth and the
    /// seventh.
    pub open spec fn buy_verdict(self, low: i64) -> bool {
        let prev = Self::behind(self.index);
        let sixth = self.lows[(prev + 1) % 5];
        let seventh = self.lows[(prev + 2) % 5];
        let eighth = self.lows[(prev + 3) % 5];
        (eighth < sixth && eighth < seventh) || (low < sixth && low < seventh)
    }

    /// The verdict on a completed sell setup whose ninth candle has the high
    /// `high`: the eighth or the ninth high lies over both the sixth and the
    /// seventh.
    pub open spec fn sell_verdict(self, high: i64) -> bool {
        let prev = Self::behind(self.index);
        let sixth = self.highs[(prev + 1) % 5];
        let seventh = self.highs[(prev + 2) % 5];
        let eighth = self.highs[(prev + 3) % 5];
        (eighth > sixth && eighth > seventh) || (high > sixth && high > seventh)
    }

    /// The state after one more candle.
    ///
    /// The first four candles are only stored.  From the fifth on, a setup
    /// that stands at nine starts over; then the candle lengthens the setup
    /// it falls into and ends the other, and a setup that reaches nine is
    /// judged at once.
    pub open spec fn fed(self, high: i64, low: i64, close: i64) -> Setup {
        let stored = Setup {
            highs: self.highs.update(self.index, high),
            lows: self.lows.update(self.index, low),
            closes: self.closes.update(self.index, close),
            ..self
        };
        if self.seen < 4 {
            Setup { index: self.index + 1, seen: self.seen + 1, ..stored }
        } else {
            let buy = if self.buy == 9 {
                0
            } else {
                self.buy
            };
            let sell = if self.sell == 9 {
                0
            } else {
                self.sell
            };
            let index = Self::behind(self.index);
            if self.falls(close) {
                Setup {
                    index,
                    buy: buy + 1,
                    sell: 0,
                    resistance: if buy == 0 {
                        high
                    } else {
                        self.resistance
                    },
                    perfect: if buy + 1 == 9 {
                        self.buy_verdict(low)
                    } else {
                        self.perfect
                    },
                    ..stored
                }
            } else {
                Setup {
                    index,
                    buy: 0,
                    sell: sell + 1,
                    support: if sell == 0 {
                        low
                    } else {
                        self.support
                    },
                    perfect: if sell + 1 == 9 {
                        self.sell_verdict(high)
                    } else {
                        self.perfect
                    },
                    ..stored
                }
            }
        }
    }
}

/// The counter never leaves the range from minus nine to nine.
pub proof fn lemma_count_bounded(before: Setup, high: i64, low: i64, close: i64)
    requires
        before.wf(),
    ensures
        before.fed(high, low, close).wf(),
        -9 <= before.fed(high, low, close).count() <= 9,
{
}

/// The counter changes its sign only on a candle that contradicts the
/// running setup: a sell setup turns into a buy setup only on a close that is
/// not above the reference, a buy setup into a sell setup only on a close
/// that is.
pub proof fn lemma_sign_flips_on_contradiction(before: Setup, high: i64, low: i64, close: i64)
    requires
        before.wf(),
    ensures
        before.count() > 0 && before.fed(high, low, close).count() < 0 ==> before.falls(close),
        before.count() < 0 && before.fed(high, low, close).count() > 0 ==> !before.falls(close),
        before.count() > 0 && before.falls(close) && before.seen == 4 ==> before.fed(
            high,
            low,
            close,
        ).count() == -1,
        before.count() < 0 && !before.falls(close) && before.seen == 4 ==> before.fed(
            high,
            low,
            close,
        ).count() == 1,
{
}

/// A close equal to the close four candles earlier counts as a close below
/// it: from the fifth candle on it lengthens the buy setup, or starts one, and
/// ends a sell setup.
pub proof fn lemma_tie_counts_down(before: Setup, high: i64, low: i64)
    requires
        before.wf(),
        before.seen == 4,
    ensures
        before.falls(before.reference()),
        before.fed(high, low, before.reference()).sell == 0,
        before.fed(high, low, before.reference()).buy == if before.buy == 9 {
            1
        } else {
            before.buy + 1
        },
        before.fed(high, low, before.reference()).count() < 0,
{
}

/// Nine is reached from eight only, the setup is judged on that very candle,
/// and the candle after a nine starts a setup at one.
pub proof fn lemma_nine_is_judged_once(before: Setup, high: i64, low: i64, close: i64)
    requires
        before.wf(),
    ensures
        before.fed(high, low, close).count() == -9 ==> before.count() == -8 && before.fed(
            high,
            low,
            close,
        ).perfect == before.buy_verdict(low),
        before.fed(high, low, close).count() == 9 ==> before.count() == 8 && before.fed(
            high,
            low,
            close,
        ).perfect == before.sell_verdict(high),
        before.count() == 9 || before.count() == -9 ==> before.fed(high, low, close).count() == 1
            || before.fed(high, low, close).count() == -1,
        -9 < before.fed(high, low, close).count() < 9 ==> before.fed(high, low, close).perfect
            == before.perfect,
{
}

/// A counter of nine-candle setups: it holds each close against the close
/// four candles earlier.
pub struct TdSeq {
    highs: Vec<i64>,
    lows: Vec<i64>,
    closes: Vec<i64>,
    index: usize,
    seen: usize,
    buy_setup_count: u32,
    sell_setup_count: u32,
    perfect: bool,
    /// The low of the candle that began the running sell setup.
    pub support: i64,
    /// The high of the candle that began the running buy setup.
    pub resistance: i64,
}

impl View for TdSeq {
    type V = Setup;

    closed spec fn view(&self) -> Setup {
        Setup {
            highs: self.highs@,
            lows: self.lows@,
            closes: self.closes@,
            index: self.index as int,
            seen: self.seen as int,
            buy: self.buy_setup_count as int,
            sell: self.sell_setup_count as int,
            perfect: self.perfect,
            support: self.support,
            resistance: self.resistance,
        }
    }
}

fn five_zeros() -> (r: Vec<i64>)
    ensures
        r@ == Seq::new(5, |i: int| 0i64),
{
    let mut v: Vec<i64> = Vec::new();
    v.push(0);
    v.push(0);
    v.push(0);
    v.push(0);
    v.push(0);
    assert(v@ =~= Seq::new(5, |i: int| 0i64));
    v
}

impl TdSeq {
    /// The state before any candle.
    pub open spec fn initial() -> Setup {
        Setup {
            highs: Seq::new(5, |i: int| 0i64),
            lows: Seq::new(5, |i: int| 0i64),
            closes: Seq::new(5, |i: int| 0i64),
            index: 0,
            seen: 0,
            buy: 0,
            sell: 0,
            perfect: false,
            support: 0,
            resistance: 0,
        }
    }

    pub fn new() -> (r: Self)
        ensures
            r@ == Self::initial(),
            r@.wf(),
    {
        Self {
            highs: five_zeros(),
            lows: five_zeros(),
            closes: five_zeros(),
            index: 0,
            seen: 0,
            buy_setup_count: 0,
            sell_setup_count: 0,
            perfect: false,
            support: 0,
            resistance: 0,
        }
    }

    /// Feeds one candle.
    pub fn next(&mut self, high: i64, low: i64, close: i64)
        requires
            old(self)@.wf(),
        ensures
            final(self)@ == old(self)@.fed(high, low, close),
            final(self)@.wf(),
    {
        let ghost before = self@;
        self.closes.set(self.index, close);
        self.highs.set(self.index, high);
        self.lows.set(self.index, low);
        if self.seen < 4 {
            self.index += 1;
            self.seen += 1;
        } else {
            let prev_index: usize = if self.index == 4 {
                0
            } else {
                self.index + 1
            };
            if self.buy_setup_count == 9 {
                self.buy_setup_count = 0;
            }
            if self.sell_setup_count == 9 {
                self.sell_setup_count = 0;
            }
            if self.closes[prev_index] >= self.closes[self.index] {
                if self.sell_setup_count != 0 {
                    self.sell_setup_count = 0;
                }
                if self.buy_setup_count == 0 {
                    self.resistance = self.highs[self.index];
                }
                self.buy_setup_count += 1;
            } else {
                if self.buy_setup_count != 0 {
                    self.buy_setup_count = 0;
                }
                if self.sell_setup_count == 0 {
                    self.support = self.lows[self.index];
                }
                self.sell_setup_count += 1;
            }
            if self.buy_setup_count == 9 {
                let sixth = self.lows[(prev_index + 1) % 5];
                let seventh = self.lows[(prev_index + 2) % 5];
                let eighth = self.lows[(prev_index + 3) % 5];
                let ninth = self.lows[self.index];
                self.perfect = (eighth < sixth && eighth < seventh) || (ninth < sixth && ninth
                    < seventh);
            }
            if self.sell_setup_count == 9 {
                let sixth = self.highs[(prev_index + 1) % 5];
                let seventh = self.highs[(prev_index + 2) % 5];
                let eighth = self.highs[(prev_index + 3) % 5];
                let ninth = self.highs[self.index];
                self.perfect = (eighth > sixth && eighth > seventh) || (ninth > sixth && ninth
                    > seventh);
            }
            if self.index == 4 {
                self.index = 0;
            } else {
                self.index += 1;
            }
        }
        assert(self@.highs =~= before.fed(high, low, close).highs);
        assert(self@.lows =~= before.fed(high, low, close).lows);
        assert(self@.closes =~= before.fed(high, low, close).closes);
    }

    /// Whether a buy setup stands at nine and was judged perfect.
    pub fn buy_perfect(&self) -> (r: bool)
        ensures
            r == (self@.perfect && self@.buy == 9),
    {
        self.perfect && self.buy_setup_count == 9
    }

    /// Whether a sell setup stands at nine and was judged perfect.
    pub fn sell_perfect(&self) -> (r: bool)
        ensures
            r == (self@.perfect && self@.sell == 9),
    {
        self.perfect && self.sell_setup_count == 9
    }

    /// The counter with its sign: negative while a buy setup runs, positive
    /// while a sell setup runs.
    pub fn count(&self) -> (r: i32)
        requires
            self@.wf(),
        ensures
            r == self@.count(),
    {
        if self.buy_setup_count > 0 {
            -(self.buy_setup_count as i32)
        } else {
            self.sell_setup_count as i32
        }
    }
}

/// The last `period` samples in a ring, with a flag that tells whether the
/// ring has been filled once.  An average over a window is taken from its
/// slots once the flag is up.
pub struct Window {
    period: usize,
    index: usize,
    data: Vec<i64>,
    full: bool,
    fed: Ghost<Seq<i64>>,
}

impl Window {
    /// Every sample fed so far, oldest first.
    pub closed spec fn history(&self) -> Seq<i64> {
        self.fed@
    }

    /// The width of the window.
    pub closed spec fn span(&self) -> int {
        self.period as int
    }

    /// The slot that the next sample goes to.
    pub closed spec fn cursor(&self) -> int {
        self.index as int
    }

    /// The slots in ring order.
    pub closed spec fn slots(&self) -> Seq<i64> {
        self.data@
    }

    pub closed spec fn wf(&self) -> bool {
        &&& self.data@.len() == self.period
        &&& self.period > 0
        &&& ring(self.data@, self.fed@, self.index as int, 0)
        &&& self.full == (self.fed@.len() >= self.period)
    }

    /// The slots are the ring that the history leaves behind, and once the
    /// window is full they hold its last samples and nothing else.
    pub proof fn lemma_slots(&self)
        requires
            self.wf(),
        ensures
            self.span() > 0,
            self.slots().len() == self.span(),
            ring(self.slots(), self.history(), self.cursor(), 0),
            self.history().len() >= self.span() ==> forall|j: int|
                0 <= j < self.span() ==> recent(self.history(), self.span()).contains(
                    #[trigger] self.slots()[j],
                ),
            forall|i: int|
                0 <= i < recent(self.history(), self.span()).len() ==> self.slots().contains(
                    #[trigger] recent(self.history(), self.span())[i],
                ),
    {
        lemma_ring_window(self.data@, self.fed@, self.index as int, 0);
    }

    pub fn new(period: usize) -> (r: Self)
        requires
            period > 0,
        ensures
            r.wf(),
            r.span() == period,
            r.history() == Seq::<i64>::empty(),
    {
        let mut data: Vec<i64> = Vec::new();
        let mut i: usize = 0;
        while i < period
            invariant
                i <= period,
                data@.len() == i,
                forall|j: int| 0 <= j < i ==> data@[j] == 0,
            decreases period - i,
        {
            data.push(0);
            i += 1;
        }
        Self { period, index: 0, data, full: false, fed: Ghost(Seq::empty()) }
    }

    /// Feeds one sample: it takes the place of the oldest.
    pub fn push(&mut self, value: i64)
        requires
            old(self).wf(),
        ensures
            final(self).wf(),
            final(self).span() == old(self).span(),
            final(self).history() == old(self).history().push(value),
            final(self).slots() == old(self).slots().update(old(self).cursor(), value),
            final(self).cursor() == if old(self).cursor() + 1 < old(self).span() {
                old(self).cursor() + 1
            } else {
                0
            },
    {
        proof {
            lemma_ring_push(self.data@, self.fed@, self.index as int, 0, value);
        }
        self.data.set(self.index, value);
        self.fed = Ghost(self.fed@.push(value));
        if self.index < self.period - 1 {
            self.index += 1;
        } else {
            self.full = true;
            self.index = 0;
        }
    }

    /// Whether as many samples were fed as the window is wide: from then on
    /// a value over the window is available.
    pub fn is_full(&self) -> (r: bool)
        requires
            self.wf(),
        ensures
            r == (self.history().len() >= self.span()),
    {
        self.full
    }

    /// The width of the window.
    pub fn period(&self) -> (r: usize)
        ensures
            r == self.span(),
    {
        self.period
    }

    /// The sample in slot `j`.
    pub fn slot(&self, j: usize) -> (r: i64)
        requires
            self.wf(),
            j < self.span(),
        ensures
            r == self.slots()[j as int],
    {
        self.data[j]
    }
}

/// Where a seeded average stands in its warm-up.
#[derive(Debug, Clone, Copy, PartialEq, Eq, Structural)]
pub enum Phase {
    /// The sample is added to the running sum.
    Gather,
    /// The sample completes the sum, whose mean becomes the first value.
    Seed,
    /// The sample moves the value by the recurrence.
    Smooth,
}

/// The warm-up of an average that is seeded with the mean of its first
/// `period` samples.
#[derive(Debug, Clone, Copy, PartialEq, Eq, Structural)]
pub struct Warmup {
    period: usize,
    index: usize,
}

impl Warmup {
    /// How many samples the seed takes.
    pub closed spec fn span(self) -> int {
        self.period as int
    }

    /// How many samples were fed, counted up to the period.
    pub closed spec fn count(self) -> int {
        self.index as int
    }

    pub closed spec fn wf(self) -> bool {
        0 < self.period && self.index <= self.period
    }

    pub fn new(period: usize) -> (r: Self)
        requires
            period > 0,
        ensures
            r.wf(),
            r.span() == period,
            r.count() == 0,
    {
        Self { period, index: 0 }
    }

    /// Counts one sample and says what to do with it.
    pub fn advance(&mut self) -> (r: Phase)
        requires
            old(self).wf(),
        ensures
            final(self).wf(),
            final(self).span() == old(self).span(),
            final(self).count() == if old(self).count() < old(self).span() {
                old(self).count() + 1
            } else {
                old(self).count()
            },
            r == if old(self).count() + 1 < old(self).span() {
                Phase::Gather
            } else if old(self).count() + 1 == old(self).span() {
                Phase::Seed
            } else {
                Phase::Smooth
            },
    {
        if self.index < self.period - 1 {
            self.index += 1;
            Phase::Gather
        } else if self.index == self.period - 1 {
            self.index += 1;
            Phase::Seed
        } else {
            Phase::Smooth
        }
    }

    /// Whether the seed is complete: from then on the average has a value.
    pub fn ready(&self) -> (r: bool)
        requires
            self.wf(),
        ensures
            r == (self.count() >= self.span()),
    {
        self.index >= self.period
    }

    pub fn period(&self) -> (r: usize)
        ensures
            r == self.span(),
    {
        self.period
    }
}

/// A full window that was fed one value only holds that value in every
/// slot.
pub proof fn lemma_constant_window(window: &Window, v: i64)
    requires
        window.wf(),
        window.history().len() >= window.span(),
        forall|i: int| 0 <= i < window.history().len() ==> window.history()[i] == v,
    ensures
        forall|j: int| 0 <= j < window.span() ==> #[trigger] window.slots()[j] == v,
{
    window.lemma_slots();
    let recent = recent(window.history(), window.span());
    assert forall|j: int| 0 <= j < window.span() implies #[trigger] window.slots()[j] == v by {
        assert(recent.contains(window.slots()[j]));
        let i = choose|i: int| 0 <= i < recent.len() && recent[i] == window.slots()[j];
        assert(recent[i] == v);
    }
}

/// A window fed `n` samples is full exactly from the sample on that makes
/// their number the period.
pub proof fn lemma_window_fills(fed: Seq<i64>, period: int)
    requires
        period > 0,
    ensures
        recent(fed, period).len() == period <==> fed.len() >= period,
{
}

/// The directional movement of one candle: of the upward and the downward
/// move, the one that is above zero and strictly greater than the other
/// counts as it is, and the other, or both where neither is, counts as zero.
pub open spec fn moves(up_move: i64, down_move: i64, zero: i64) -> (i64, i64) {
    (
        if up_move > down_move && up_move > zero {
            up_move
        } else {
            zero
        },
        if up_move < down_move && down_move > zero {
            down_move
        } else {
            zero
        },
    )
}

/// Picks the directional movement out of the two moves of a candle.  `zero`
/// is the key of no move.
pub fn directional_moves(up_move: i64, down_move: i64, zero: i64) -> (r: (i64, i64))
    ensures
        r == moves(up_move, down_move, zero),
        r.0 == zero || r.1 == zero,
{
    let plus = if up_move > down_move && up_move > zero {
        up_move
    } else {
        zero
    };
    let minus = if up_move < down_move && down_move > zero {
        down_move
    } else {
        zero
    };
    (plus, minus)
}

/// The ends of a candle's true range: the higher of its high and the close
/// before it, and the lower of its low and that close.
pub fn range_ends(high: i64, low: i64, close_prev: i64) -> (r: (i64, i64))
    ensures
        r.0 == if high >= close_prev {
            high
        } else {
            close_prev
        },
        r.1 == if low <= close_prev {
            low
        } else {
            close_prev
        },
{
    (
        if high >= close_prev {
            high
        } else {
            close_prev
        },
        if low <= close_prev {
            low
        } else {
            close_prev
        },
    )
}

} // verus!
