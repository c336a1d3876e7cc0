use trading_rs::indicators::{
    directional_moves, range_ends, Maximum, Minimum, Phase, TdSeq, Warmup, Window,
};

fn key(value: f64) -> i64 {
    let bits = value.to_bits() as i64;
    bits ^ ((((bits >> 63) as u64) >> 1) as i64)
}

fn value(key: i64) -> f64 {
    let bits = key ^ ((((key >> 63) as u64) >> 1) as i64);
    f64::from_bits(bits as u64)
}

fn mean(window: &Window) -> Option<f64> {
    if window.is_full() {
        let sum: f64 = (0..window.period()).map(|j| value(window.slot(j))).sum();
        Some(sum / window.period() as f64)
    } else {
        None
    }
}

fn deviation(window: &Window) -> Option<f64> {
    let mean = mean(window)?;
    let spread: f64 = (0..window.period()).map(|j| (value(window.slot(j)) - mean).powi(2)).sum();
    Some((spread / window.period() as f64).sqrt())
}

#[test]
fn sma_test() {
    let mut sma = Window::new(3);

    assert_eq!(None, mean(&sma));
    sma.push(key(1f64));
    assert_eq!(None, mean(&sma));
    sma.push(key(2f64));
    assert_eq!(None, mean(&sma));
    sma.push(key(12f64));
    assert!(
        mean(&sma).unwrap() - 5f64 < f64::EPSILON && mean(&sma).unwrap() - 5f64 > -f64::EPSILON
    );
}

#[test]
fn std_dev_test() {
    let mut std = Window::new(8);

    assert_eq!(None, deviation(&std));
    std.push(key(2f64));
    assert_eq!(None, deviation(&std));
    std.push(key(4f64));
    assert_eq!(None, deviation(&std));
    std.push(key(4f64));
    assert_eq!(None, deviation(&std));
    std.push(key(4f64));
    assert_eq!(None, deviation(&std));
    std.push(key(5f64));
    assert_eq!(None, deviation(&std));
    std.push(key(5f64));
    assert_eq!(None, deviation(&std));
    std.push(key(7f64));
    assert_eq!(None, deviation(&std));
    std.push(key(9f64));
    assert!(
        deviation(&std).unwrap() - 2f64 < f64::EPSILON
            && deviation(&std).unwrap() - 2f64 > -f64::EPSILON
    );
}

#[test]
fn average_of_a_constant() {
    for period in 1..6usize {
        let mut window = Window::new(period);
        for n in 1..=(3 * period) {
            window.push(key(7.5));
            assert_eq!(mean(&window).is_some(), n >= period);
            if let Some(mean) = mean(&window) {
                assert_eq!(mean, 7.5);
            }
        }
    }
}

#[test]
fn keys_come_back() {
    for v in [-1.0e9, -2.5, 0.0, 1.0e-9, 1.0, 2.5, 1.0e9] {
        assert_eq!(value(key(v)), v);
    }
}

#[test]
fn keys_keep_the_order() {
    let values = [-1.0e9, -2.5, -0.0, 0.0, 1.0e-9, 1.0, 2.5, 1.0e9];
    for pair in values.windows(2) {
        assert!(key(pair[0]) <= key(pair[1]));
    }
    assert!(key(-2.5) < key(-1.0));
    assert!(key(1.0) < key(2.5));
}

#[test]
fn maximum_follows_the_window() {
    let feeds = [3, 1, 4, 1, 5, 9, 2, 6, 5, 3, 5, -8, -9, -7, -9, -3];
    let period = 3;
    let mut maximum = Maximum::new(period);
    let mut minimum = Minimum::new(period);
    assert_eq!(maximum.get(), Some(i64::MIN));
    assert_eq!(minimum.get(), Some(i64::MAX));
    for n in 0..feeds.len() {
        maximum.next(feeds[n]);
        minimum.next(feeds[n]);
        let from = if n + 1 > period { n + 1 - period } else { 0 };
        let window = &feeds[from..n + 1];
        assert_eq!(maximum.get(), window.iter().copied().max());
        assert_eq!(minimum.get(), window.iter().copied().min());
    }
}

#[test]
fn maximum_over_float_keys() {
    let mut maximum = Maximum::new(2);
    let mut minimum = Minimum::new(2);
    for value in [0.5, -1.25, -3.0, 7.75] {
        maximum.next(key(value));
        minimum.next(key(value));
    }
    assert_eq!(maximum.get(), Some(key(7.75)));
    assert_eq!(minimum.get(), Some(key(-3.0)));
}

#[test]
fn extremes_of_width_one_and_none() {
    let mut maximum = Maximum::new(1);
    maximum.next(5);
    assert_eq!(maximum.get(), Some(5));
    maximum.next(-5);
    assert_eq!(maximum.get(), Some(-5));
    assert_eq!(Maximum::new(0).get(), None);
    assert_eq!(Minimum::new(0).get(), None);
    let mut lowest = Maximum::new(2);
    lowest.next(i64::MIN);
    assert_eq!(lowest.get(), Some(i64::MIN));
}

#[test]
fn window_fills_after_period_feeds() {
    let mut window = Window::new(3);
    assert_eq!(window.period(), 3);
    assert!(!window.is_full());
    window.push(1);
    assert!(!window.is_full());
    window.push(2);
    assert!(!window.is_full());
    window.push(12);
    assert!(window.is_full());
    assert_eq!((window.slot(0), window.slot(1), window.slot(2)), (1, 2, 12));
    assert_eq!(window.slot(0) + window.slot(1) + window.slot(2), 15);
    window.push(7);
    assert!(window.is_full());
    assert_eq!((window.slot(0), window.slot(1), window.slot(2)), (7, 2, 12));
}

#[test]
fn window_of_a_constant() {
    for period in 1..6usize {
        let mut window = Window::new(period);
        for n in 1..=(3 * period) {
            window.push(42);
            assert_eq!(window.is_full(), n >= period);
            if window.is_full() {
                for j in 0..period {
                    assert_eq!(window.slot(j), 42);
                }
            }
        }
    }
}

#[test]
fn warmup_phases() {
    let mut warmup = Warmup::new(3);
    assert!(!warmup.ready());
    assert_eq!(warmup.advance(), Phase::Gather);
    assert_eq!(warmup.advance(), Phase::Gather);
    assert!(!warmup.ready());
    assert_eq!(warmup.advance(), Phase::Seed);
    assert!(warmup.ready());
    assert_eq!(warmup.advance(), Phase::Smooth);
    assert_eq!(warmup.advance(), Phase::Smooth);
    assert!(warmup.ready());
    let mut single = Warmup::new(1);
    assert_eq!(single.advance(), Phase::Seed);
    assert_eq!(single.advance(), Phase::Smooth);
    assert_eq!(single.period(), 1);
}

#[test]
fn counter_starts_at_zero_and_fills_first() {
    let mut td = TdSeq::new();
    assert_eq!(td.count(), 0);
    for close in [10, 9, 8, 7] {
        td.next(close + 1, close - 1, close);
        assert_eq!(td.count(), 0);
    }
    td.next(7, 5, 6);
    assert_eq!(td.count(), -1);
}

#[test]
fn counter_runs_to_nine_and_starts_over() {
    let mut td = TdSeq::new();
    for close in [100, 100, 100, 100] {
        td.next(close, close, close);
    }
    let mut close = 100;
    for n in 1..=9 {
        close += 1;
        td.next(close, close, close);
        assert_eq!(td.count(), n);
        assert!(!td.buy_perfect());
    }
    assert!(td.sell_perfect());
    close += 1;
    td.next(close, close, close);
    assert_eq!(td.count(), 1);
    assert!(!td.sell_perfect());
}

#[test]
fn counter_flips_on_a_contradicting_close() {
    let mut td = TdSeq::new();
    for close in [50, 50, 50, 50, 51, 52, 53] {
        td.next(close, close, close);
    }
    assert_eq!(td.count(), 3);
    td.next(40, 40, 40);
    assert_eq!(td.count(), -1);
    assert_eq!(td.resistance, 40);
    td.next(39, 38, 39);
    assert_eq!(td.count(), -2);
    assert_eq!(td.resistance, 40);
    td.next(60, 55, 60);
    assert_eq!(td.count(), 1);
    assert_eq!(td.support, 55);
}

#[test]
fn tie_counts_as_a_lower_close() {
    let mut td = TdSeq::new();
    for close in [5, 5, 5, 5, 5] {
        td.next(close, close, close);
    }
    assert_eq!(td.count(), -1);
    td.next(4, 4, 4);
    assert_eq!(td.count(), -2);
    td.next(5, 5, 5);
    assert_eq!(td.count(), -3);
    td.next(6, 6, 6);
    assert_eq!(td.count(), 1);
}

#[test]
fn tie_ends_a_run_of_higher_closes() {
    let mut td = TdSeq::new();
    for close in [5, 5, 5, 5, 6, 7] {
        td.next(close, close, close);
    }
    assert_eq!(td.count(), 2);
    td.next(3, 2, 5);
    assert_eq!(td.count(), -1);
    assert_eq!(td.resistance, 3);
}

#[test]
fn magnitude_stays_within_nine() {
    let mut td = TdSeq::new();
    let mut close: i64 = 1000;
    for n in 0..200 {
        close -= 1 + (n % 3);
        td.next(close + 2, close - 2, close);
        assert!(td.count() >= -9 && td.count() <= 9);
    }
    assert_ne!(td.count(), 0);
}

#[test]
fn buy_setup_is_judged_by_the_lows() {
    let mut td = TdSeq::new();
    for close in [100, 100, 100, 100] {
        td.next(close, close, close);
    }
    let lows = [90, 89, 88, 87, 86, 85, 84, 80, 83];
    let mut close = 100;
    for n in 0..9 {
        close -= 1;
        td.next(close + 1, lows[n], close);
    }
    assert_eq!(td.count(), -9);
    assert!(td.buy_perfect());
    assert!(!td.sell_perfect());

    let mut td = TdSeq::new();
    for close in [100, 100, 100, 100] {
        td.next(close, close, close);
    }
    let lows = [90, 89, 88, 87, 86, 80, 84, 85, 83];
    let mut close = 100;
    for n in 0..9 {
        close -= 1;
        td.next(close + 1, lows[n], close);
    }
    assert_eq!(td.count(), -9);
    assert!(!td.buy_perfect());
}

#[test]
fn directional_movement_is_one_sided() {
    let zero = key(0.0);
    assert_eq!(directional_moves(key(2.0), key(1.0), zero), (key(2.0), zero));
    assert_eq!(directional_moves(key(1.0), key(2.0), zero), (zero, key(2.0)));
    assert_eq!(directional_moves(key(2.0), key(2.0), zero), (zero, zero));
    assert_eq!(directional_moves(key(-1.0), key(-2.0), zero), (zero, zero));
    assert_eq!(directional_moves(key(-2.0), key(-1.0), zero), (zero, zero));
    assert_eq!(directional_moves(key(3.0), key(-1.0), zero), (key(3.0), zero));
    assert_eq!(directional_moves(key(-3.0), key(0.5), zero), (zero, key(0.5)));
    assert_eq!(directional_moves(zero, key(-1.0), zero), (zero, zero));
}

#[test]
fn true_range_ends() {
    assert_eq!(range_ends(key(10.0), key(8.0), key(9.0)), (key(10.0), key(8.0)));
    assert_eq!(range_ends(key(10.0), key(8.0), key(12.0)), (key(12.0), key(8.0)));
    assert_eq!(range_ends(key(10.0), key(8.0), key(7.0)), (key(10.0), key(7.0)));
    let (top, bottom) = range_ends(key(10.0), key(8.0), key(12.5));
    assert_eq!(value(top) - value(bottom), 4.5);
}
