//! The position engine: from the readings of one closed candle to at most one
//! buy or sell signal per instrument.
//!
//! Prices and indicator values come in as ordered keys.  The engine compares
//! them and never calculates with them; the levels that take arithmetic, such
//! as a band moved by half its width, are part of the readings.

use crate::exchange::binance::{Asset, SymbolString};
use crate::exchange::Interval;
use crate::time::{utc_date, utc_date_text};
use crate::finder::spells;
use crate::indicators::{Setup, TdSeq};
use vstd::prelude::*;
use vstd::string::{StringExecFns, StringSliceAdditionalSpecFns};
use vstd::utf8::{encode_utf8, is_char_boundary};

verus! {

/// One closed candle, its prices as ordered keys.
#[derive(Debug, Clone, Copy, PartialEq, Eq, Structural)]
pub struct Candle {
    pub open_time: i64,
    pub open: i64,
    pub high: i64,
    pub low: i64,
    pub close: i64,
}

/// How a position was entered.
#[derive(Debug, Clone, Copy, PartialEq, Eq, Structural)]
pub enum Position {
    /// Bought under the lower band.
    Dip,
    /// Bought into a rising trend near the basis.
    Mean,
}

/// What the engine asks for.
#[derive(Debug, Clone, Copy, PartialEq, Eq, Structural)]
pub enum Signal {
    Buy(Position),
    Sell,
}

/// An open position: how it was entered and at what close.
#[derive(Debug, Clone, Copy, PartialEq, Eq, Structural)]
pub struct Entry {
    pub kind: Position,
    pub price: i64,
}

/// The levels of trend strength that the rules turn on.
#[derive(Debug, Clone, Copy, PartialEq, Eq, Structural)]
pub struct Thresholds {
    /// Above this the dip entry wants a close under the tightened band.
    pub tighten: i64,
    /// A trend counts as strong above this.
    pub strong: i64,
    /// A trend entry wants the strength under this.
    pub ceiling: i64,
}

/// The band levels of one candle.
#[derive(Debug, Clone, Copy, PartialEq, Eq, Structural)]
pub struct Bands {
    pub basis: i64,
    pub upper: i64,
    pub lower: i64,
    /// The lower band moved down by half the band's half-width.
    pub lower_tight: i64,
    /// The basis moved up by half the band's half-width.
    pub basis_raised: i64,
}

/// What the indicators show after one candle.  A reading is missing while
/// its indicator warms up.
#[derive(Debug, Clone, Copy, PartialEq, Eq, Structural)]
pub struct Readings {
    pub bands: Option<Bands>,
    /// The trend strength.
    pub adx: Option<i64>,
    /// The upward and the downward directional index.
    pub pdi: Option<i64>,
    pub mdi: Option<i64>,
    /// The smoothed trend strength.
    pub dema: Option<i64>,
}

impl Readings {
    /// Whether every indicator is past its warm-up.
    pub open spec fn complete(self) -> bool {
        self.bands.is_some() && self.adx.is_some() && self.pdi.is_some() && self.mdi.is_some()
            && self.dema.is_some()
    }
}

/// Whether a flat instrument buys the dip: the close lies under the lower
/// band, tightened while the trend strength exceeds its threshold.
pub open spec fn dips(candle: Candle, limits: Thresholds, r: Readings) -> bool
    recommends
        r.complete(),
{
    candle.close < if r.adx.unwrap() > limits.tighten {
        r.bands.unwrap().lower_tight
    } else {
        r.bands.unwrap().lower
    }
}

/// Whether a flat instrument buys into the trend: the upward index leads,
/// the strength lies strictly between the strong level and the ceiling and
/// above its smoothed value, and the candle's low lies strictly between the
/// basis and the raised basis.
pub open spec fn rides(candle: Candle, limits: Thresholds, r: Readings) -> bool
    recommends
        r.complete(),
{
    r.pdi.unwrap() > r.mdi.unwrap() && r.adx.unwrap() > limits.strong && r.adx.unwrap()
        < limits.ceiling && r.adx.unwrap() > r.dema.unwrap() && candle.low > r.bands.unwrap().basis
        && candle.low < r.bands.unwrap().basis_raised
}

/// Whether a dip entry is sold: the close has recovered above the basis
/// without a loss against the entry, or exceeds the upper band outright.
pub open spec fn recovers(candle: Candle, entry: i64, r: Readings) -> bool
    recommends
        r.complete(),
{
    (candle.close >= entry && candle.close > r.bands.unwrap().basis) || candle.close
        > r.bands.unwrap().upper
}

/// Whether a trend entry is sold: the upward index leads, the trend is
/// strong and above its smoothed value, and a perfect sell setup was seen
/// while the trend was strong.
pub open spec fn peaks(limits: Thresholds, was_perfect: bool, r: Readings) -> bool
    recommends
        r.complete(),
{
    r.pdi.unwrap() > r.mdi.unwrap() && r.adx.unwrap() > limits.strong && r.adx.unwrap()
        > r.dema.unwrap() && was_perfect
}

/// The signal of one evaluation.  There is none while any indicator warms
/// up; otherwise the one rule of the current state decides.
pub open spec fn signal_for(
    holding: Option<Entry>,
    candle: Candle,
    was_perfect: bool,
    limits: Thresholds,
    r: Readings,
) -> Option<Signal> {
    if !r.complete() {
        None
    } else {
        match holding {
            None => if dips(candle, limits, r) {
                Some(Signal::Buy(Position::Dip))
            } else if rides(candle, limits, r) {
                Some(Signal::Buy(Position::Mean))
            } else {
                None
            },
            Some(Entry { kind: Position::Dip, price }) => if recovers(candle, price, r) {
                Some(Signal::Sell)
            } else {
                None
            },
            Some(Entry { kind: Position::Mean, .. }) => if peaks(limits, was_perfect, r) {
                Some(Signal::Sell)
            } else {
                None
            },
        }
    }
}

/// The memory of a perfect sell setup after one more candle: it is set by a
/// perfect sell setup under a strong trend that leads upward and lies above
/// its smoothed value, and cleared once the trend is weaker than strong.
/// While an indicator warms up it stays as it is.
pub open spec fn latched(was_perfect: bool, sell_perfect: bool, limits: Thresholds, r: Readings) -> bool {
    if r.adx.is_some() && r.pdi.is_some() && r.mdi.is_some() && r.dema.is_some() {
        let set = was_perfect || (sell_perfect && r.adx.unwrap() > r.dema.unwrap() && r.pdi.unwrap()
            > r.mdi.unwrap() && r.adx.unwrap() > limits.strong);
        set && !(r.adx.unwrap() < limits.strong)
    } else {
        was_perfect
    }
}

/// The position after a signal was followed at the close `close`: a buy
/// opens one at that close, a sell clears it, no signal leaves it.
pub open spec fn followed(holding: Option<Entry>, signal: Option<Signal>, close: i64) -> Option<
    Entry,
> {
    match signal {
        Some(Signal::Buy(kind)) => Some(Entry { kind, price: close }),
        Some(Signal::Sell) => None,
        None => holding,
    }
}

/// What a replay carries from candle to candle: the position, the sequence
/// counter and the memory of its last perfect sell setup.
pub struct Track {
    pub holding: Option<Entry>,
    pub counter: Setup,
    pub was_perfect: bool,
}

/// One candle of a replay: the track behind it and its signal.  The candle
/// is counted, and the perfect setup remembered or forgotten; a candle that
/// opens at or after `start_time` is then evaluated and its signal followed
/// at once, a candle before that gives no signal.
pub open spec fn replay_step(
    track: Track,
    kline: Candle,
    readings: Readings,
    limits: Thresholds,
    start_time: i64,
) -> (Track, Option<Signal>) {
    let counter = track.counter.fed(kline.high, kline.low, kline.close);
    let was_perfect = latched(
        track.was_perfect,
        counter.perfect && counter.sell == 9,
        limits,
        readings,
    );
    let signal = if start_time <= kline.open_time {
        signal_for(track.holding, kline, was_perfect, limits, readings)
    } else {
        None
    };
    (Track { holding: followed(track.holding, signal, kline.close), counter, was_perfect }, signal)
}

/// A replay over a series of candles, each with its readings: the track
/// behind the last candle, and the signal of every candle in order.
pub open spec fn replayed(
    track: Track,
    steps: Seq<(Candle, Readings)>,
    limits: Thresholds,
    start_time: i64,
) -> (Track, Seq<Option<Signal>>)
    decreases steps.len(),
{
    if steps.len() == 0 {
        (track, Seq::empty())
    } else {
        let (before, signals) = replayed(track, steps.drop_last(), limits, start_time);
        let (after, signal) = replay_step(before, steps.last().0, steps.last().1, limits, start_time);
        (after, signals.push(signal))
    }
}

/// Whether a position is held behind these signals, when `held` says whether
/// one was held before them: a buy opens one, a sell closes it.
pub open spec fn held_after(held: bool, signals: Seq<Option<Signal>>) -> bool
    decreases signals.len(),
{
    if signals.len() == 0 {
        held
    } else {
        match signals.last() {
            Some(Signal::Buy(_)) => true,
            Some(Signal::Sell) => false,
            None => held_after(held, signals.drop_last()),
        }
    }
}

/// Whether buys and sells take turns: every buy comes while no position is
/// held, every sell while one is.  From flat the first signal is then a buy,
/// and between two buys stands a sell.
pub open spec fn alternates(held: bool, signals: Seq<Option<Signal>>) -> bool
    decreases signals.len(),
{
    if signals.len() == 0 {
        true
    } else {
        alternates(held, signals.drop_last()) && match signals.last() {
            Some(Signal::Buy(_)) => !held_after(held, signals.drop_last()),
            Some(Signal::Sell) => held_after(held, signals.drop_last()),
            None => true,
        }
    }
}

/// Over any series of candles the buys and sells of a replay take turns,
/// and the position behind the series is held exactly if the last signal was
/// a buy, or if there was none and it was held before.
pub proof fn lemma_replay_alternates(
    track: Track,
    steps: Seq<(Candle, Readings)>,
    limits: Thresholds,
    start_time: i64,
)
    ensures
        replayed(track, steps, limits, start_time).1.len() == steps.len(),
        alternates(track.holding.is_some(), replayed(track, steps, limits, start_time).1),
        replayed(track, steps, limits, start_time).0.holding.is_some() == held_after(
            track.holding.is_some(),
            replayed(track, steps, limits, start_time).1,
        ),
    decreases steps.len(),
{
    if steps.len() > 0 {
        lemma_replay_alternates(track, steps.drop_last(), limits, start_time);
        let (before, signals) = replayed(track, steps.drop_last(), limits, start_time);
        let (after, signal) = replay_step(before, steps.last().0, steps.last().1, limits, start_time);
        lemma_signal_fits_state(
            before.holding,
            steps.last().0,
            after.was_perfect,
            limits,
            steps.last().1,
        );
        assert(signals.push(signal).drop_last() =~= signals);
    }
}

/// A candle of a replay that gives a buy opens the position at that candle's
/// close, one that gives a sell clears it, and one that gives no signal
/// leaves it: while a position is held no candle buys again, however low it
/// closes.
pub proof fn lemma_replay_follows(
    track: Track,
    kline: Candle,
    readings: Readings,
    limits: Thresholds,
    start_time: i64,
)
    ensures
        ({
            let (after, signal) = replay_step(track, kline, readings, limits, start_time);
            &&& signal matches Some(Signal::Buy(kind)) ==> track.holding.is_none() && after.holding
                == Some(Entry { kind, price: kline.close })
            &&& signal == Some(Signal::Sell) ==> track.holding.is_some() && after.holding.is_none()
            &&& signal.is_none() ==> after.holding == track.holding
            &&& track.holding.is_some() ==> !(signal matches Some(Signal::Buy(_)))
        }),
{
}

/// A buy is signalled only to a flat instrument, a sell only to one that
/// holds a position.
pub proof fn lemma_signal_fits_state(
    holding: Option<Entry>,
    candle: Candle,
    was_perfect: bool,
    limits: Thresholds,
    r: Readings,
)
    ensures
        signal_for(holding, candle, was_perfect, limits, r) matches Some(Signal::Buy(_))
            ==> holding.is_none(),
        signal_for(holding, candle, was_perfect, limits, r) == Some(Signal::Sell)
            ==> holding.is_some(),
        !r.complete() ==> signal_for(holding, candle, was_perfect, limits, r).is_none(),
{
}

/// A flat instrument whose close drops under the lower band buys the dip,
/// and once it holds that entry no candle makes it buy again.
pub proof fn lemma_dip_is_entered_once(
    candle: Candle,
    later: Candle,
    was_perfect: bool,
    still_perfect: bool,
    limits: Thresholds,
    r: Readings,
    next: Readings,
)
    requires
        r.complete(),
        dips(candle, limits, r),
    ensures
        signal_for(None, candle, was_perfect, limits, r) == Some(Signal::Buy(Position::Dip)),
        !(signal_for(
            Some(Entry { kind: Position::Dip, price: candle.close }),
            later,
            still_perfect,
            limits,
            next,
        ) matches Some(Signal::Buy(_))),
{
}

/// The part of an instrument's indicator set that counts candles: the
/// sequence counter and the memory of its last perfect sell setup.
pub struct Indicators {
    td_seq: TdSeq,
    was_perfect: bool,
}

impl Indicators {
    /// The state of the sequence counter.
    pub closed spec fn counter(&self) -> Setup {
        self.td_seq@
    }

    /// Whether a perfect sell setup is remembered.
    pub closed spec fn remembers_perfect(&self) -> bool {
        self.was_perfect
    }

    pub open spec fn wf(&self) -> bool {
        self.counter().wf()
    }

    /// The indicators before any candle.
    pub fn new() -> (r: Self)
        ensures
            r.wf(),
            r.counter() == TdSeq::initial(),
            !r.remembers_perfect(),
    {
        Self { td_seq: TdSeq::new(), was_perfect: false }
    }

    /// Whether a perfect sell setup is remembered.
    pub fn was_perfect(&self) -> (r: bool)
        ensures
            r == self.remembers_perfect(),
    {
        self.was_perfect
    }

    /// Takes in one closed candle with the readings that belong to it.
    pub fn update(&mut self, kline: &Candle, limits: &Thresholds, readings: &Readings)
        requires
            old(self).wf(),
        ensures
            final(self).wf(),
            final(self).counter() == old(self).counter().fed(kline.high, kline.low, kline.close),
            final(self).remembers_perfect() == latched(
                old(self).remembers_perfect(),
                final(self).counter().perfect && final(self).counter().sell == 9,
                *limits,
                *readings,
            ),
    {
        self.td_seq.next(kline.high, kline.low, kline.close);
        match (readings.adx, readings.pdi, readings.mdi, readings.dema) {
            (Some(adx), Some(pdi), Some(mdi), Some(dema)) => {
                if self.td_seq.sell_perfect() && adx > dema && pdi > mdi && adx > limits.strong {
                    self.was_perfect = true;
                }
                if self.was_perfect && adx < limits.strong {
                    self.was_perfect = false;
                }
            },
            _ => {},
        }
    }
}

/// One instrument: its name, its latest candle, its lot-size precision, its
/// candle-counting indicators and its position.
pub struct Symbol {
    name: SymbolString,
    indicators: Indicators,
    kline: Candle,
    step_size: i32,
    limits: Thresholds,
    holding: Option<Entry>,
}

impl Symbol {
    /// The name of the pair.
    pub closed spec fn name(&self) -> SymbolString {
        self.name
    }

    /// The candle-counting indicators.
    pub closed spec fn indicators(&self) -> Indicators {
        self.indicators
    }

    /// The latest candle.
    pub closed spec fn candle(&self) -> Candle {
        self.kline
    }

    /// The lot-size precision, in decimal places.
    pub closed spec fn precision(&self) -> i32 {
        self.step_size
    }

    /// The levels of trend strength that the rules turn on.
    pub closed spec fn limits(&self) -> Thresholds {
        self.limits
    }

    /// The open position, if any.
    pub closed spec fn holding(&self) -> Option<Entry> {
        self.holding
    }

    pub open spec fn wf(&self) -> bool {
        self.name().wf() && self.indicators().wf()
    }

    /// What a replay carries on from this instrument.
    pub open spec fn track(&self) -> Track {
        Track {
            holding: self.holding(),
            counter: self.indicators().counter(),
            was_perfect: self.indicators().remembers_perfect(),
        }
    }

    /// The signal that the latest candle gives under these readings.
    pub open spec fn verdict(&self, readings: Readings) -> Option<Signal> {
        signal_for(
            self.holding(),
            self.candle(),
            self.indicators().remembers_perfect(),
            self.limits(),
            readings,
        )
    }

    /// Whether this is a flat instrument before its first candle.
    pub open spec fn fresh(&self, step_size: i32, limits: Thresholds) -> bool {
        &&& self.wf()
        &&& self.precision() == step_size
        &&& self.limits() == limits
        &&& self.holding().is_none()
        &&& self.candle() == (Candle { open_time: 0, open: 0, high: 0, low: 0, close: 0 })
        &&& self.indicators().counter() == TdSeq::initial()
        &&& !self.indicators().remembers_perfect()
    }

    /// A flat instrument with a lot-size precision of eight places.
    pub fn new(base: &str, quote: &str, limits: Thresholds) -> (r: Self)
        ensures
            r.fresh(8, limits),
            r.name().whole_name() == base@ + quote@,
            r.name().base_name() == base@,
            r.name().quote_name() == quote@,
    {
        Self {
            name: SymbolString::new(base, quote),
            indicators: Indicators::new(),
            kline: Candle { open_time: 0, open: 0, high: 0, low: 0, close: 0 },
            step_size: 8,
            limits,
            holding: None,
        }
    }

    /// A flat instrument with the lot-size precision that its exchange
    /// lists.
    pub fn listed(base: &str, quote: &str, step_size: i32, limits: Thresholds) -> (r: Self)
        ensures
            r.fresh(step_size, limits),
            r.name().whole_name() == base@ + quote@,
            r.name().base_name() == base@,
            r.name().quote_name() == quote@,
    {
        Self {
            name: SymbolString::new(base, quote),
            indicators: Indicators::new(),
            kline: Candle { open_time: 0, open: 0, high: 0, low: 0, close: 0 },
            step_size,
            limits,
            holding: None,
        }
    }

    /// A flat instrument whose name splits behind its first `mid` bytes.
    pub fn from_string(inner: String, mid: usize, step_size: i32, limits: Thresholds) -> (r: Self)
        requires
            is_char_boundary(encode_utf8(inner@), mid as int),
        ensures
            r.fresh(step_size, limits),
            r.name().whole_name() == inner@,
    {
        Self {
            name: SymbolString::from_raw_parts(inner, mid),
            indicators: Indicators::new(),
            kline: Candle { open_time: 0, open: 0, high: 0, low: 0, close: 0 },
            step_size,
            limits,
            holding: None,
        }
    }

    /// Takes in one closed candle with the readings that belong to it.  The
    /// position stays as it is.
    pub fn feed(&mut self, kline: &Candle, readings: &Readings)
        requires
            old(self).wf(),
        ensures
            final(self).wf(),
            final(self).name() == old(self).name(),
            final(self).precision() == old(self).precision(),
            final(self).limits() == old(self).limits(),
            final(self).holding() == old(self).holding(),
            final(self).candle() == *kline,
            final(self).indicators().counter() == old(self).indicators().counter().fed(
                kline.high,
                kline.low,
                kline.close,
            ),
            final(self).indicators().remembers_perfect() == latched(
                old(self).indicators().remembers_perfect(),
                final(self).indicators().counter().perfect && final(self).indicators().counter().sell
                    == 9,
                old(self).limits(),
                *readings,
            ),
    {
        self.indicators.update(kline, &self.limits, readings);
        self.kline = *kline;
    }

    /// Evaluates the rule of the current state once.
    pub fn check_conditions(&self, readings: &Readings) -> (r: Option<Signal>)
        ensures
            r == self.verdict(*readings),
    {
        match (readings.bands, readings.adx, readings.pdi, readings.mdi, readings.dema) {
            (Some(bands), Some(adx), Some(pdi), Some(mdi), Some(dema)) => {
                match self.holding {
                    None => {
                        let bound = if adx > self.limits.tighten {
                            bands.lower_tight
                        } else {
                            bands.lower
                        };
                        let buy_the_dip = self.kline.close < bound;
                        let to_the_moon = pdi > mdi && adx > self.limits.strong && adx
                            < self.limits.ceiling && adx > dema && self.kline.low > bands.basis
                            && self.kline.low < bands.basis_raised;
                        if buy_the_dip {
                            Some(Signal::Buy(Position::Dip))
                        } else if to_the_moon {
                            Some(Signal::Buy(Position::Mean))
                        } else {
                            None
                        }
                    },
                    Some(Entry { kind: Position::Dip, price }) => {
                        if (self.kline.close >= price && self.kline.close > bands.basis)
                            || self.kline.close > bands.upper {
                            Some(Signal::Sell)
                        } else {
                            None
                        }
                    },
                    Some(Entry { kind: Position::Mean, .. }) => {
                        let at_the_moon = pdi > mdi && adx > self.limits.strong && adx > dema
                            && self.indicators.was_perfect();
                        if at_the_moon {
                            Some(Signal::Sell)
                        } else {
                            None
                        }
                    },
                }
            },
            _ => None,
        }
    }

    /// Replays one candle: takes it in and, if it opens at or after
    /// `start_time`, evaluates the rule of the current state and follows the
    /// signal at once.  A candle before the range only warms the indicators
    /// up.
    pub fn replay(&mut self, kline: &Candle, readings: &Readings, start_time: i64) -> (r: Option<
        Signal,
    >)
        requires
            old(self).wf(),
        ensures
            final(self).wf(),
            final(self).name() == old(self).name(),
            final(self).precision() == old(self).precision(),
            final(self).limits() == old(self).limits(),
            final(self).candle() == *kline,
            final(self).indicators().counter() == old(self).indicators().counter().fed(
                kline.high,
                kline.low,
                kline.close,
            ),
            final(self).indicators().remembers_perfect() == latched(
                old(self).indicators().remembers_perfect(),
                final(self).indicators().counter().perfect && final(self).indicators().counter().sell
                    == 9,
                old(self).limits(),
                *readings,
            ),
            r == if start_time <= kline.open_time {
                signal_for(
                    old(self).holding(),
                    *kline,
                    final(self).indicators().remembers_perfect(),
                    old(self).limits(),
                    *readings,
                )
            } else {
                None
            },
            final(self).holding() == followed(old(self).holding(), r, kline.close),
    {
        self.feed(kline, readings);
        if start_time <= kline.open_time {
            let signal = self.check_conditions(readings);
            match signal {
                Some(Signal::Buy(kind)) => {
                    self.enter(kind);
                },
                Some(Signal::Sell) => {
                    self.leave();
                },
                None => {},
            }
            signal
        } else {
            None
        }
    }

    /// Replays a series of candles, each with its readings, and gives the
    /// signal of every candle in order.  Each signal is followed before the
    /// next candle is taken in.
    pub fn replay_series(&mut self, steps: &Vec<(Candle, Readings)>, start_time: i64) -> (r: Vec<
        Option<Signal>,
    >)
        requires
            old(self).wf(),
        ensures
            final(self).wf(),
            final(self).name() == old(self).name(),
            final(self).precision() == old(self).precision(),
            final(self).limits() == old(self).limits(),
            final(self).candle() == if steps@.len() == 0 {
                old(self).candle()
            } else {
                steps@.last().0
            },
            final(self).track() == replayed(
                old(self).track(),
                steps@,
                old(self).limits(),
                start_time,
            ).0,
            r@ == replayed(old(self).track(), steps@, old(self).limits(), start_time).1,
            r@.len() == steps@.len(),
            alternates(old(self).holding().is_some(), r@),
    {
        let mut signals: Vec<Option<Signal>> = Vec::new();
        let mut i: usize = 0;
        assert(steps@.subrange(0, 0) =~= Seq::<(Candle, Readings)>::empty());
        while i < steps.len()
            invariant
                i <= steps@.len(),
                self.wf(),
                self.name() == old(self).name(),
                self.precision() == old(self).precision(),
                self.limits() == old(self).limits(),
                self.candle() == if i == 0 {
                    old(self).candle()
                } else {
                    steps@[i - 1].0
                },
                self.track() == replayed(
                    old(self).track(),
                    steps@.subrange(0, i as int),
                    old(self).limits(),
                    start_time,
                ).0,
                signals@ == replayed(
                    old(self).track(),
                    steps@.subrange(0, i as int),
                    old(self).limits(),
                    start_time,
                ).1,
                signals@.len() == i,
            decreases steps@.len() - i,
        {
            proof {
                let longer = steps@.subrange(0, i + 1);
                assert(longer.drop_last() =~= steps@.subrange(0, i as int));
                assert(longer.last() == steps@[i as int]);
            }
            let kline = steps[i].0;
            let readings = steps[i].1;
            let signal = self.replay(&kline, &readings, start_time);
            signals.push(signal);
            i += 1;
        }
        proof {
            assert(steps@.subrange(0, steps@.len() as int) =~= steps@);
            lemma_replay_alternates(old(self).track(), steps@, old(self).limits(), start_time);
        }
        signals
    }

    /// Opens a position at the close of the latest candle.
    pub fn enter(&mut self, kind: Position)
        requires
            old(self).holding().is_none(),
        ensures
            final(self).holding() == Some(Entry { kind, price: old(self).candle().close }),
            final(self).name() == old(self).name(),
            final(self).indicators() == old(self).indicators(),
            final(self).candle() == old(self).candle(),
            final(self).precision() == old(self).precision(),
            final(self).limits() == old(self).limits(),
    {
        self.holding = Some(Entry { kind, price: self.kline.close });
    }

    /// Closes the position and forgets its entry price.
    pub fn leave(&mut self)
        ensures
            final(self).holding().is_none(),
            final(self).name() == old(self).name(),
            final(self).indicators() == old(self).indicators(),
            final(self).candle() == old(self).candle(),
            final(self).precision() == old(self).precision(),
            final(self).limits() == old(self).limits(),
    {
        self.holding = None;
    }

    /// How the open position was entered; nothing while flat.
    pub fn position(&self) -> (r: Option<Position>)
        ensures
            r == match self.holding() {
                Some(entry) => Some(entry.kind),
                None => None,
            },
    {
        match self.holding {
            Some(entry) => Some(entry.kind),
            None => None,
        }
    }

    /// The close at which the open position was entered.
    pub fn entry_price(&self) -> (r: Option<i64>)
        ensures
            r == match self.holding() {
                Some(entry) => Some(entry.price),
                None => None,
            },
    {
        match self.holding {
            Some(entry) => Some(entry.price),
            None => None,
        }
    }

    /// The latest candle.
    pub fn kline(&self) -> (r: Candle)
        ensures
            r == self.candle(),
    {
        self.kline
    }

    /// The lot-size precision, in decimal places.
    pub fn step_size(&self) -> (r: i32)
        ensures
            r == self.precision(),
    {
        self.step_size
    }

    /// The name of the pair.
    pub fn as_str(&self) -> (r: &str)
        ensures
            r@ == self.name().whole_name(),
    {
        self.name.as_str()
    }

    /// The name of the base asset.
    pub fn base(&self) -> (r: &str)
        ensures
            r@ == self.name().base_name(),
    {
        self.name.base()
    }

    /// The name of the quote asset.
    pub fn quote(&self) -> (r: &str)
        ensures
            r@ == self.name().quote_name(),
    {
        self.name.quote()
    }
}

/// Whether two texts are the same.
pub fn same_text(a: &str, b: &str) -> (r: bool)
    ensures
        r == (a@ == b@),
{
    broadcast use vstd::utf8::group_utf8_lib;

    let x = a.as_bytes();
    let y = b.as_bytes();
    assert(x@.subrange(0, x@.len() as int) =~= x@);
    let same = spells(x, 0, x.len(), y);
    proof {
        if same {
            assert(vstd::utf8::decode_utf8(encode_utf8(a@)) == vstd::utf8::decode_utf8(
                encode_utf8(b@),
            ));
        }
    }
    same
}

/// The last index under which `assets` holds an asset named `name`.
pub open spec fn last_named(assets: Seq<Asset>, name: Seq<char>) -> Option<int>
    decreases assets.len(),
{
    if assets.len() == 0 {
        None
    } else if assets.last().name@ == name {
        Some(assets.len() - 1)
    } else {
        last_named(assets.drop_last(), name)
    }
}

/// Where the two assets of a pair stand among `assets`: the quote asset
/// first, then the base asset.  Of several assets with one name the last
/// counts.  There is no answer where either is missing, nor for a pair of one
/// asset with itself.
pub open spec fn pair_assets(assets: Seq<Asset>, quote: Seq<char>, base: Seq<char>) -> Option<
    (int, int),
> {
    match (last_named(assets, quote), last_named(assets, base)) {
        (Some(q), Some(b)) => if quote == base {
            None
        } else {
            Some((q, b))
        },
        _ => None,
    }
}

/// Looks up the asset named `name`.
pub fn find_asset(assets: &Vec<Asset>, name: &str) -> (r: Option<usize>)
    ensures
        match last_named(assets@, name@) {
            Some(i) => r == Some(i as usize) && i < assets@.len(),
            None => r.is_none(),
        },
{
    let mut i: usize = assets.len();
    proof {
        assert(assets@.subrange(0, assets@.len() as int) =~= assets@);
    }
    while i > 0
        invariant
            i <= assets@.len(),
            last_named(assets@, name@) == last_named(assets@.subrange(0, i as int), name@),
        decreases i,
    {
        let ghost head = assets@.subrange(0, i as int);
        assert(head.last() == assets@[i - 1]);
        assert(head.drop_last() =~= assets@.subrange(0, i - 1));
        if same_text(assets[i - 1].name.as_str(), name) {
            return Some(i - 1);
        }
        i -= 1;
    }
    None
}

/// Looks up the quote asset and the base asset of `symbol`.
pub fn find_pair_assets(assets: &Vec<Asset>, symbol: &Symbol) -> (r: Option<(usize, usize)>)
    ensures
        match pair_assets(assets@, symbol.name().quote_name(), symbol.name().base_name()) {
            Some((q, b)) => r == Some((q as usize, b as usize)) && q < assets@.len() && b
                < assets@.len(),
            None => r.is_none(),
        },
{
    if same_text(symbol.quote(), symbol.base()) {
        return None;
    }
    match (find_asset(assets, symbol.quote()), find_asset(assets, symbol.base())) {
        (Some(q), Some(b)) => Some((q, b)),
        _ => None,
    }
}

/// How many of `symbols` hold no position.
pub open spec fn flat_among(symbols: Seq<Symbol>) -> nat
    decreases symbols.len(),
{
    if symbols.len() == 0 {
        0
    } else {
        flat_among(symbols.drop_last()) + if symbols.last().holding().is_none() {
            1nat
        } else {
            0nat
        }
    }
}

/// Counts the instruments that hold no position: the ones among which the
/// quote balance is shared out when one of them buys.
pub fn flat_count(symbols: &Vec<Symbol>) -> (r: usize)
    ensures
        r == flat_among(symbols@),
        r <= symbols@.len(),
{
    let mut count: usize = 0;
    let mut i: usize = 0;
    while i < symbols.len()
        invariant
            i <= symbols@.len(),
            count <= i,
            count == flat_among(symbols@.subrange(0, i as int)),
        decreases symbols@.len() - i,
    {
        proof {
            let longer = symbols@.subrange(0, i + 1);
            assert(longer.drop_last() =~= symbols@.subrange(0, i as int));
            assert(longer.last() == symbols@[i as int]);
        }
        if symbols[i].position().is_none() {
            count += 1;
        }
        i += 1;
    }
    proof {
        assert(symbols@.subrange(0, symbols@.len() as int) =~= symbols@);
    }
    count
}

/// What ended a wait.
#[derive(Debug, Clone, Copy, PartialEq, Eq, Structural)]
pub enum Wake {
    /// The quit signal came.
    Quit,
    /// The wait ran out: a candle has closed.
    Timeout,
    /// The watcher went away without a signal.
    Hangup,
}

/// What the loop does next.
#[derive(Debug, Clone, Copy, PartialEq, Eq, Structural)]
pub enum Step {
    /// Join the watcher and end.
    Stop,
    /// Ask for the one candle that closed at `end_time`, for every
    /// instrument.
    Poll { end_time: i64 },
    /// End with a fault.
    Abort,
}

/// The first multiple of `interval` behind `now`.
pub open spec fn boundary_after(now: int, interval: int) -> int {
    now + interval - now % interval
}

/// The clock of the live loop: candles close one interval apart, and the
/// loop wakes at each close.
#[derive(Debug, Clone, Copy, PartialEq, Eq, Structural)]
pub struct Clock {
    start_time: i64,
    close_time: i64,
    interval: i64,
}

impl Clock {
    /// When the first candle of the session opens.
    pub closed spec fn started(self) -> i64 {
        self.start_time
    }

    /// The last millisecond of the candle that closes next.
    pub closed spec fn closes(self) -> i64 {
        self.close_time
    }

    /// How long a candle lasts, in milliseconds.
    pub closed spec fn width(self) -> i64 {
        self.interval
    }

    /// The candles have a length, the history before the session has a
    /// time to end at, and the clock never runs behind its start.
    pub closed spec fn wf(self) -> bool {
        &&& self.interval > 0
        &&& self.start_time - 2 * self.interval >= i64::MIN
        &&& self.close_time >= self.start_time - 1
    }

    /// Whether a clock can be started at `now`.
    pub open spec fn startable(now: i64, interval: i64) -> bool {
        now >= 0 && interval > 0 && now + interval <= i64::MAX && now - 2 * interval >= i64::MIN
    }

    /// Tells whether a clock can be started at `now`.
    pub fn can_start(now: i64, interval: i64) -> (r: bool)
        ensures
            r == Self::startable(now, interval),
    {
        now >= 0 && interval > 0 && now <= i64::MAX - interval && now as i128 - 2 * (
        interval as i128) >= i64::MIN as i128
    }

    /// The clock of a session that starts at the first boundary behind
    /// `now`.
    pub fn start(now: i64, interval: i64) -> (r: Self)
        requires
            Self::startable(now, interval),
        ensures
            r.wf(),
            r.width() == interval,
            r.started() == boundary_after(now as int, interval as int),
            now < r.started() <= now + interval,
            r.started() as int % interval as int == 0,
            r.closes() == r.started() - 1,
    {
        let start_time = now + interval - now % interval;
        assert(start_time as int % interval as int == 0) by (nonlinear_arith)
            requires
                start_time == now + interval - (now as int % interval as int),
                interval > 0,
        ;
        Self { start_time, close_time: start_time - 1, interval }
    }

    /// When the first candle of the session opens.
    pub fn start_time(&self) -> (r: i64)
        ensures
            r == self.started(),
    {
        self.start_time
    }

    /// The last millisecond of the candle that closes next.
    pub fn close_time(&self) -> (r: i64)
        ensures
            r == self.closes(),
    {
        self.close_time
    }

    /// How long a candle lasts, in milliseconds.
    pub fn interval(&self) -> (r: i64)
        ensures
            r == self.width(),
    {
        self.interval
    }

    /// Up to when the candles are fetched that warm the indicators up: two
    /// intervals before the session starts.
    pub fn history_end(&self) -> (r: i64)
        requires
            self.wf(),
        ensures
            r == self.started() - 2 * self.width(),
    {
        let back: i128 = 2 * (self.interval as i128);
        (self.start_time as i128 - back) as i64
    }

    /// How long to wait at `now`: the milliseconds left until the next
    /// close, none if it has passed.
    pub fn timeout(&self, now: i64) -> (r: u64)
        ensures
            r == if self.closes() > now {
                self.closes() - now
            } else {
                0
            },
    {
        if self.close_time > now {
            (self.close_time as i128 - now as i128) as u64
        } else {
            0
        }
    }

    /// Decides what follows a wait.  After a timeout the candle that closed
    /// is polled and the clock moves on by one interval; where that would
    /// leave the range of time the loop ends with a fault and the clock
    /// stays.
    pub fn wake(&mut self, event: Wake) -> (r: Step)
        requires
            old(self).wf(),
        ensures
            final(self).wf(),
            final(self).started() == old(self).started(),
            final(self).width() == old(self).width(),
            event == Wake::Quit ==> r == Step::Stop && *final(self) == *old(self),
            event == Wake::Hangup ==> r == Step::Abort && *final(self) == *old(self),
            event == Wake::Timeout && old(self).closes() + old(self).width() <= i64::MAX ==> r
                == (Step::Poll { end_time: old(self).closes() }) && final(self).closes() == old(
                self).closes() + old(self).width(),
            event == Wake::Timeout && old(self).closes() + old(self).width() > i64::MAX ==> r
                == Step::Abort && *final(self) == *old(self),
    {
        match event {
            Wake::Quit => Step::Stop,
            Wake::Hangup => Step::Abort,
            Wake::Timeout => {
                if self.close_time > i64::MAX - self.interval {
                    Step::Abort
                } else {
                    let end_time = self.close_time;
                    self.close_time = self.close_time + self.interval;
                    Step::Poll { end_time }
                }
            },
        }
    }
}

/// How a replay fetches its candles.
#[derive(Debug, Clone, Copy, PartialEq, Eq, Structural)]
pub struct ReplayPlan {
    /// Up to when the warm-up candles are fetched: one interval before the
    /// range.
    pub warmup_end: i64,
    /// How many candles the range holds.
    pub data_count: i64,
    /// How many requests of a thousand candles cover the range.
    pub pages: i64,
}

impl ReplayPlan {
    /// Whether a replay over `start..end` can be planned.
    pub open spec fn plannable(start: i64, end: i64, interval: i64) -> bool {
        interval > 0 && start <= end && start - interval >= i64::MIN && end - start <= i64::MAX
    }

    /// Tells whether a replay over `start..end` can be planned.
    pub fn can_plan(start: i64, end: i64, interval: i64) -> (r: bool)
        ensures
            r == Self::plannable(start, end, interval),
    {
        interval > 0 && start <= end && start as i128 - interval as i128 >= i64::MIN as i128
            && end as i128 - start as i128 <= i64::MAX as i128
    }

    /// Plans the requests of a replay over `start..end`.
    pub fn new(start: i64, end: i64, interval: i64) -> (r: Self)
        requires
            Self::plannable(start, end, interval),
        ensures
            r.warmup_end == start - interval,
            r.data_count == (end - start) / (interval as int),
            r.pages == (r.data_count + 999) / 1000,
            r.data_count >= 0,
    {
        let data_count = (end - start) / interval;
        let pages = if data_count % 1000 == 0 {
            data_count / 1000
        } else {
            data_count / 1000 + 1
        };
        Self { warmup_end: start - interval, data_count, pages }
    }

    /// How many candles to make room for.
    pub fn capacity(&self) -> (r: usize)
        ensures
            0 <= self.data_count && self.data_count + 1000 <= usize::MAX ==> r == self.data_count
                + 1000,
            !(0 <= self.data_count && self.data_count + 1000 <= usize::MAX) ==> r == 0,
    {
        if self.data_count >= 0 && (self.data_count as u128) + 1000 <= usize::MAX as u128 {
            (self.data_count as u128 + 1000) as usize
        } else {
            0
        }
    }

    /// Where request number `page` starts: a thousand intervals behind the
    /// one before.  Nothing where that leaves the range of time.
    pub fn page_start(start: i64, interval: i64, page: i64) -> (r: Option<i64>)
        ensures
            i64::MIN <= start + page * interval * 1000 <= i64::MAX ==> r == Some(
                (start + page * interval * 1000) as i64,
            ),
            !(i64::MIN <= start + page * interval * 1000 <= i64::MAX) ==> r.is_none(),
    {
        match page.checked_mul(interval) {
            None => {
                proof {
                    lemma_product_grows(page as int * interval as int);
                }
                None
            },
            Some(step) => {
                let time: i128 = start as i128 + (step as i128) * 1000;
                if time < i64::MIN as i128 || time > i64::MAX as i128 {
                    None
                } else {
                    Some(time as i64)
                }
            },
        }
    }
}

/// A product that leaves 64 bits stays out of reach of any start time when
/// it is multiplied by a thousand.
proof fn lemma_product_grows(p: int)
    requires
        p < i64::MIN || p > i64::MAX,
    ensures
        forall|start: i64| !(i64::MIN <= #[trigger] (start + p * 1000) <= i64::MAX),
{
}

/// Where a replay keeps the candles it fetched: a file named by the symbol,
/// the day the range starts and the interval.
pub open spec fn cache_path_text(symbol: Seq<char>, date: Seq<char>, interval: Interval) -> Seq<
    char,
> {
    "./data/"@ + symbol + "_"@ + date + "_"@ + interval.label_text() + ".txt"@
}

/// Writes the path of the file that keeps the candles of a replay, the day
/// given as text.
pub fn compose_cache_path(symbol: &str, date: &str, interval: Interval) -> (r: String)
    ensures
        r@ == cache_path_text(symbol@, date@, interval),
{
    let mut path = String::from_str("./data/");
    path.append(symbol);
    path.append("_");
    path.append(date);
    path.append("_");
    path.append(interval.label().as_str());
    path.append(".txt");
    assert(path@ =~= cache_path_text(symbol@, date@, interval));
    path
}

/// Writes the path of the file that keeps the candles of a replay that
/// starts at `start_time`.  There is none for a time that the calendar cannot
/// hold.
pub fn cache_path(symbol: &str, start_time: i64, interval: Interval) -> (r: Option<String>)
    ensures
        match utc_date_text(start_time) {
            Some(date) => r matches Some(path) && path@ == cache_path_text(symbol@, date, interval),
            None => r.is_none(),
        },
{
    match utc_date(start_time) {
        Some(date) => Some(compose_cache_path(symbol, date.as_str(), interval)),
        None => None,
    }
}

} // verus!
