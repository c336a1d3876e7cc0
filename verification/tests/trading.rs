use trading_rs::exchange::binance::Asset;
use trading_rs::number::Decimal;
use trading_rs::trading::{
    find_asset, find_pair_assets, flat_count, same_text, Bands, Candle, Clock, Indicators,
    Position, Readings, ReplayPlan, Signal, Step, Symbol, Thresholds, Wake,
};

fn key(value: f64) -> i64 {
    let bits = value.to_bits() as i64;
    bits ^ ((((bits >> 63) as u64) >> 1) as i64)
}

fn limits() -> Thresholds {
    Thresholds { tighten: key(15.0), strong: key(25.0), ceiling: key(40.0) }
}

fn candle(open_time: i64, low: f64, close: f64) -> Candle {
    Candle { open_time, open: key(close), high: key(close + 1.0), low: key(low), close: key(close) }
}

fn readings(basis: f64, dev: f64, adx: f64, pdi: f64, mdi: f64, dema: f64) -> Readings {
    Readings {
        bands: Some(Bands {
            basis: key(basis),
            upper: key(basis + dev),
            lower: key(basis - dev),
            lower_tight: key(basis - dev - dev / 2.0),
            basis_raised: key(basis + dev / 2.0),
        }),
        adx: Some(key(adx)),
        pdi: Some(key(pdi)),
        mdi: Some(key(mdi)),
        dema: Some(key(dema)),
    }
}

#[test]
fn dip_is_bought_once() {
    let mut symbol = Symbol::new("BNB", "USDT", limits());
    let calm = readings(100.0, 10.0, 10.0, 20.0, 30.0, 12.0);

    symbol.feed(&candle(1, 95.0, 96.0), &calm);
    assert_eq!(symbol.check_conditions(&calm), None);

    symbol.feed(&candle(2, 88.0, 89.0), &calm);
    assert_eq!(symbol.check_conditions(&calm), Some(Signal::Buy(Position::Dip)));
    symbol.enter(Position::Dip);
    assert_eq!(symbol.position(), Some(Position::Dip));
    assert_eq!(symbol.entry_price(), Some(key(89.0)));

    symbol.feed(&candle(3, 80.0, 85.0), &calm);
    assert_eq!(symbol.check_conditions(&calm), None);
    symbol.feed(&candle(4, 70.0, 75.0), &calm);
    assert_eq!(symbol.check_conditions(&calm), None);
    assert_eq!(symbol.position(), Some(Position::Dip));
    assert_eq!(symbol.entry_price(), Some(key(89.0)));
}

#[test]
fn dip_wants_the_tightened_band_under_a_trend() {
    let mut symbol = Symbol::new("BNB", "USDT", limits());
    let trending = readings(100.0, 10.0, 16.0, 20.0, 30.0, 12.0);
    symbol.feed(&candle(1, 88.0, 89.0), &trending);
    assert_eq!(symbol.check_conditions(&trending), None);
    symbol.feed(&candle(2, 84.0, 84.5), &trending);
    assert_eq!(symbol.check_conditions(&trending), Some(Signal::Buy(Position::Dip)));
    let at_threshold = readings(100.0, 10.0, 15.0, 20.0, 30.0, 12.0);
    symbol.feed(&candle(3, 88.0, 89.0), &at_threshold);
    assert_eq!(symbol.check_conditions(&at_threshold), Some(Signal::Buy(Position::Dip)));
}

#[test]
fn dip_is_sold_on_recovery() {
    let mut symbol = Symbol::new("BNB", "USDT", limits());
    let calm = readings(100.0, 10.0, 10.0, 20.0, 30.0, 12.0);
    symbol.feed(&candle(1, 88.0, 89.0), &calm);
    symbol.enter(Position::Dip);

    symbol.feed(&candle(2, 99.0, 100.0), &calm);
    assert_eq!(symbol.check_conditions(&calm), None);
    symbol.feed(&candle(3, 99.0, 101.0), &calm);
    assert_eq!(symbol.check_conditions(&calm), Some(Signal::Sell));
    symbol.leave();
    assert_eq!(symbol.position(), None);
    assert_eq!(symbol.entry_price(), None);

    let lower = readings(80.0, 5.0, 10.0, 20.0, 30.0, 12.0);
    let mut losing = Symbol::new("BNB", "USDT", limits());
    losing.feed(&candle(1, 88.0, 89.0), &calm);
    losing.enter(Position::Dip);
    losing.feed(&candle(2, 81.0, 82.0), &lower);
    assert_eq!(losing.check_conditions(&lower), None);
    losing.feed(&candle(3, 85.0, 86.0), &lower);
    assert_eq!(losing.check_conditions(&lower), Some(Signal::Sell));
}

#[test]
fn trend_is_bought_near_the_basis() {
    let mut symbol = Symbol::new("ETH", "BTC", limits());
    let rising = readings(100.0, 10.0, 30.0, 30.0, 20.0, 28.0);
    symbol.feed(&candle(1, 102.0, 108.0), &rising);
    assert_eq!(symbol.check_conditions(&rising), Some(Signal::Buy(Position::Mean)));
    symbol.feed(&candle(2, 105.0, 108.0), &rising);
    assert_eq!(symbol.check_conditions(&rising), None);
    symbol.feed(&candle(3, 100.0, 108.0), &rising);
    assert_eq!(symbol.check_conditions(&rising), None);
    for other in [
        readings(100.0, 10.0, 25.0, 30.0, 20.0, 20.0),
        readings(100.0, 10.0, 40.0, 30.0, 20.0, 28.0),
        readings(100.0, 10.0, 30.0, 20.0, 20.0, 28.0),
        readings(100.0, 10.0, 30.0, 30.0, 20.0, 30.0),
    ] {
        symbol.feed(&candle(4, 102.0, 108.0), &other);
        assert_eq!(symbol.check_conditions(&other), None);
    }
}

#[test]
fn nothing_is_signalled_during_warm_up() {
    let mut symbol = Symbol::new("ETH", "BTC", limits());
    let full = readings(100.0, 10.0, 10.0, 20.0, 30.0, 12.0);
    symbol.feed(&candle(1, 10.0, 10.0), &full);
    assert_eq!(symbol.check_conditions(&full), Some(Signal::Buy(Position::Dip)));
    for partial in [
        Readings { bands: None, ..full },
        Readings { adx: None, ..full },
        Readings { pdi: None, ..full },
        Readings { mdi: None, ..full },
        Readings { dema: None, ..full },
    ] {
        assert_eq!(symbol.check_conditions(&partial), None);
    }
}

fn rising_run(symbol: &mut Symbol, readings: &Readings, highs: &[f64]) {
    for close in [50.0, 50.0, 50.0, 50.0] {
        symbol.feed(&candle(0, close, close), readings);
    }
    let mut close = 50.0;
    for (n, high) in highs.iter().enumerate() {
        close += 1.0;
        let kline = Candle {
            open_time: n as i64,
            open: key(close),
            high: key(*high),
            low: key(close - 1.0),
            close: key(close),
        };
        symbol.feed(&kline, readings);
    }
}

#[test]
fn trend_is_sold_after_a_perfect_setup() {
    let strong = readings(40.0, 5.0, 30.0, 30.0, 20.0, 28.0);
    let highs = [60.0, 61.0, 62.0, 63.0, 64.0, 65.0, 66.0, 70.0, 69.0];

    let mut symbol = Symbol::new("ETH", "BTC", limits());
    symbol.enter(Position::Mean);
    rising_run(&mut symbol, &strong, &highs[..8]);
    assert_eq!(symbol.check_conditions(&strong), None);
    let mut symbol = Symbol::new("ETH", "BTC", limits());
    symbol.enter(Position::Mean);
    rising_run(&mut symbol, &strong, &highs);
    assert_eq!(symbol.check_conditions(&strong), Some(Signal::Sell));

    let weak = readings(40.0, 5.0, 24.0, 30.0, 20.0, 20.0);
    symbol.feed(&candle(20, 70.0, 71.0), &weak);
    assert_eq!(symbol.check_conditions(&strong), None);
}

#[test]
fn perfect_setup_is_remembered_until_the_trend_weakens() {
    let strong = readings(40.0, 5.0, 30.0, 30.0, 20.0, 28.0);
    let mut indicators = Indicators::new();
    assert!(!indicators.was_perfect());
    for close in [50.0, 50.0, 50.0, 50.0] {
        indicators.update(&candle(0, close, close), &limits(), &strong);
    }
    let highs = [60.0, 61.0, 62.0, 63.0, 64.0, 65.0, 66.0, 70.0, 69.0];
    let mut close = 50.0;
    for high in highs {
        close += 1.0;
        assert!(!indicators.was_perfect());
        let kline =
            Candle { open_time: 0, open: key(close), high: key(high), low: key(close), close: key(close) };
        indicators.update(&kline, &limits(), &strong);
    }
    assert!(indicators.was_perfect());
    indicators.update(&candle(0, 70.0, 70.0), &limits(), &strong);
    assert!(indicators.was_perfect());
    let warming = Readings { dema: None, ..readings(40.0, 5.0, 10.0, 30.0, 20.0, 28.0) };
    indicators.update(&candle(0, 71.0, 71.0), &limits(), &warming);
    assert!(indicators.was_perfect());
    let weak = readings(40.0, 5.0, 24.0, 30.0, 20.0, 20.0);
    indicators.update(&candle(0, 72.0, 72.0), &limits(), &weak);
    assert!(!indicators.was_perfect());
}

#[test]
fn symbol_names() {
    let symbol = Symbol::new("BNB", "USDT", limits());
    assert_eq!(symbol.as_str(), "BNBUSDT");
    assert_eq!(symbol.base(), "BNB");
    assert_eq!(symbol.quote(), "USDT");
    assert_eq!(symbol.step_size(), 8);
    assert_eq!(symbol.position(), None);
    let other = Symbol::from_string(String::from("ETHBTC"), 3, 5, limits());
    assert_eq!(other.as_str(), "ETHBTC");
    assert_eq!(other.base(), "ETH");
    assert_eq!(other.quote(), "BTC");
    assert_eq!(other.step_size(), 5);
    let listed = Symbol::listed("LTC", "EUR", 2, limits());
    assert_eq!(listed.as_str(), "LTCEUR");
    assert_eq!(listed.step_size(), 2);
    assert_eq!(listed.kline(), Candle { open_time: 0, open: 0, high: 0, low: 0, close: 0 });
}

#[test]
fn assets_are_found_by_name() {
    let zero = Decimal { digits: 0, scale: 0 };
    let assets = vec![
        Asset::new("USDT", zero),
        Asset::new("BNB", zero),
        Asset::new("ETH", zero),
        Asset::new("BNB", zero),
    ];
    assert_eq!(find_asset(&assets, "USDT"), Some(0));
    assert_eq!(find_asset(&assets, "BNB"), Some(3));
    assert_eq!(find_asset(&assets, "BTC"), None);
    assert_eq!(find_pair_assets(&assets, &Symbol::new("BNB", "USDT", limits())), Some((0, 3)));
    assert_eq!(find_pair_assets(&assets, &Symbol::new("ETH", "BNB", limits())), Some((3, 2)));
    assert_eq!(find_pair_assets(&assets, &Symbol::new("BTC", "USDT", limits())), None);
    assert_eq!(find_pair_assets(&assets, &Symbol::new("BNB", "BNB", limits())), None);
    assert!(same_text("abc", "abc"));
    assert!(!same_text("abc", "abd"));
    assert!(!same_text("abc", "ab"));
}

#[test]
fn flat_instruments_are_counted() {
    let mut symbols = vec![
        Symbol::new("BNB", "USDT", limits()),
        Symbol::new("ETH", "USDT", limits()),
        Symbol::new("LTC", "USDT", limits()),
    ];
    assert_eq!(flat_count(&symbols), 3);
    symbols[1].enter(Position::Mean);
    assert_eq!(flat_count(&symbols), 2);
    symbols[0].enter(Position::Dip);
    symbols[2].enter(Position::Dip);
    assert_eq!(flat_count(&symbols), 0);
    symbols[2].leave();
    assert_eq!(flat_count(&symbols), 1);
    assert_eq!(flat_count(&Vec::new()), 0);
}

#[test]
fn clock_starts_at_the_next_boundary() {
    let hour = 3_600_000;
    assert!(Clock::can_start(1_620_000_123_456, hour));
    let clock = Clock::start(1_620_000_123_456, hour);
    assert_eq!(clock.start_time(), 1_620_003_600_000);
    assert_eq!(clock.close_time(), 1_620_003_599_999);
    assert_eq!(clock.interval(), hour);
    assert_eq!(clock.history_end(), 1_620_003_600_000 - 2 * hour);
    let on_boundary = Clock::start(1_620_003_600_000, hour);
    assert_eq!(on_boundary.start_time(), 1_620_007_200_000);
    assert!(!Clock::can_start(-1, hour));
    assert!(!Clock::can_start(5, 0));
    assert!(!Clock::can_start(i64::MAX, hour));
}

#[test]
fn clock_waits_and_moves_on() {
    let mut clock = Clock::start(1_000, 60_000);
    assert_eq!(clock.timeout(1_000), 58_999);
    assert_eq!(clock.timeout(59_999), 0);
    assert_eq!(clock.timeout(70_000), 0);
    assert_eq!(clock.wake(Wake::Timeout), Step::Poll { end_time: 59_999 });
    assert_eq!(clock.close_time(), 119_999);
    assert_eq!(clock.wake(Wake::Timeout), Step::Poll { end_time: 119_999 });
    assert_eq!(clock.close_time(), 179_999);
    assert_eq!(clock.wake(Wake::Quit), Step::Stop);
    assert_eq!(clock.close_time(), 179_999);
    assert_eq!(clock.wake(Wake::Hangup), Step::Abort);
    let mut late = Clock::start(i64::MAX - 70_000, 60_000);
    let close = late.close_time();
    assert!(close > i64::MAX - 60_000);
    assert_eq!(late.wake(Wake::Timeout), Step::Abort);
    assert_eq!(late.close_time(), close);
}

#[test]
fn replay_is_planned_in_pages() {
    let hour = 3_600_000;
    let start = 1_610_668_800_000;
    assert!(ReplayPlan::can_plan(start, start + 2500 * hour, hour));
    let plan = ReplayPlan::new(start, start + 2500 * hour, hour);
    assert_eq!(plan.warmup_end, start - hour);
    assert_eq!(plan.data_count, 2500);
    assert_eq!(plan.pages, 3);
    assert_eq!(plan.capacity(), 3500);
    assert_eq!(ReplayPlan::new(start, start + 2000 * hour, hour).pages, 2);
    assert_eq!(ReplayPlan::new(start, start, hour).pages, 0);
    assert_eq!(ReplayPlan::new(start, start + hour - 1, hour).data_count, 0);
    assert_eq!(ReplayPlan::page_start(start, hour, 0), Some(start));
    assert_eq!(ReplayPlan::page_start(start, hour, 2), Some(start + 2000 * hour));
    assert_eq!(ReplayPlan::page_start(start, i64::MAX, 2), None);
    assert_eq!(ReplayPlan::page_start(start, i64::MAX / 1000, 1), None);
    assert!(!ReplayPlan::can_plan(start, start - 1, hour));
    assert!(!ReplayPlan::can_plan(start, start + 1, 0));
}

#[test]
fn replay_follows_its_signals_inside_the_range() {
    let calm = readings(100.0, 10.0, 10.0, 20.0, 30.0, 12.0);
    let mut symbol = Symbol::new("BNB", "USDT", limits());
    assert_eq!(symbol.replay(&candle(5, 88.0, 89.0), &calm, 10), None);
    assert_eq!(symbol.position(), None);
    assert_eq!(symbol.kline().open_time, 5);
    assert_eq!(symbol.replay(&candle(10, 88.0, 89.0), &calm, 10), Some(Signal::Buy(Position::Dip)));
    assert_eq!(symbol.position(), Some(Position::Dip));
    assert_eq!(symbol.entry_price(), Some(key(89.0)));
    assert_eq!(symbol.replay(&candle(11, 80.0, 81.0), &calm, 10), None);
    assert_eq!(symbol.position(), Some(Position::Dip));
    assert_eq!(symbol.replay(&candle(12, 100.0, 111.0), &calm, 10), Some(Signal::Sell));
    assert_eq!(symbol.position(), None);
    assert_eq!(symbol.entry_price(), None);
}

#[test]
fn replay_cache_path() {
    use_path();
}

fn use_path() {
    assert_eq!(
        trading_rs::trading::cache_path(
            "BNBUSDT",
            1_610_668_800_000,
            trading_rs::exchange::Interval::Hour(1)
        ),
        Some(String::from("./data/BNBUSDT_2021-01-15_1h.txt"))
    );
    assert_eq!(
        trading_rs::trading::cache_path("BNBUSDT", i64::MAX, trading_rs::exchange::Interval::Week),
        None
    );
    assert_eq!(
        trading_rs::trading::compose_cache_path(
            "ETHBTC",
            "2020-02-29",
            trading_rs::exchange::Interval::Minute(30)
        ),
        "./data/ETHBTC_2020-02-29_30m.txt"
    );
}

#[test]
fn replay_of_a_series_takes_turns() {
    let calm = readings(100.0, 10.0, 10.0, 20.0, 30.0, 12.0);
    let warming = Readings { bands: None, ..calm };
    let steps = vec![
        (candle(5, 88.0, 89.0), calm),
        (candle(10, 88.0, 89.0), warming),
        (candle(11, 87.0, 88.0), calm),
        (candle(12, 80.0, 81.0), calm),
        (candle(13, 70.0, 71.0), calm),
        (candle(14, 100.0, 111.0), calm),
        (candle(15, 100.0, 105.0), calm),
        (candle(16, 85.0, 86.0), calm),
        (candle(17, 84.0, 85.0), calm),
    ];
    let mut symbol = Symbol::new("BNB", "USDT", limits());
    let signals = symbol.replay_series(&steps, 10);
    assert_eq!(
        signals,
        vec![
            None,
            None,
            Some(Signal::Buy(Position::Dip)),
            None,
            None,
            Some(Signal::Sell),
            None,
            Some(Signal::Buy(Position::Dip)),
            None,
        ]
    );
    assert_eq!(symbol.position(), Some(Position::Dip));
    assert_eq!(symbol.entry_price(), Some(key(86.0)));
    assert_eq!(symbol.kline().open_time, 17);

    let mut stepwise = Symbol::new("BNB", "USDT", limits());
    let one_by_one: Vec<Option<Signal>> =
        steps.iter().map(|(kline, readings)| stepwise.replay(kline, readings, 10)).collect();
    assert_eq!(one_by_one, signals);

    let mut idle = Symbol::new("BNB", "USDT", limits());
    assert_eq!(idle.replay_series(&Vec::new(), 0), Vec::new());
    assert_eq!(idle.position(), None);
}
