use rsi_calculator::engine::{Computed, Phase, RsiCalculator};
use rsi_calculator::history::MAX_HISTORY;
use rsi_calculator::DEFAULT_PERIOD;

fn rsi_from(avg_gain: f64, avg_loss: f64) -> f64 {
    if avg_loss == 0.0 {
        100.0
    } else if avg_gain == 0.0 {
        0.0
    } else {
        100.0 - 100.0 / (1.0 + avg_gain / avg_loss)
    }
}

/// Works out the averages for `price` the way the service does and feeds it.
fn feed(calc: &mut RsiCalculator<f64>, price: f64, stamp: &str) -> Option<f64> {
    let period = calc.period() as f64;
    let positive = price > 0.0;
    let computed = if !positive {
        None
    } else {
        match calc.next_phase() {
            Phase::Warmup => None,
            Phase::Priming => {
                let mut window = calc.prices().clone();
                window.push(price);
                let (mut gains, mut losses) = (0.0, 0.0);
                for pair in window.windows(2) {
                    let change = pair[1] - pair[0];
                    if change > 0.0 {
                        gains += change;
                    } else {
                        losses -= change;
                    }
                }
                let (g, l) = (gains / period, losses / period);
                Some(Computed { avg_gain: g, avg_loss: l, rsi: rsi_from(g, l) })
            }
            Phase::Smoothing => {
                let prev = calc.latest_price().unwrap();
                let (g0, l0) = calc.averages().unwrap();
                let change = price - prev;
                let alpha = 1.0 / period;
                let g = (1.0 - alpha) * g0 + alpha * change.max(0.0);
                let l = (1.0 - alpha) * l0 + alpha * (-change).max(0.0);
                Some(Computed { avg_gain: g, avg_loss: l, rsi: rsi_from(g, l) })
            }
        }
    };
    calc.add_price(price, positive, computed, stamp.to_string())
}

#[test]
fn increasing_prices_give_first_value_at_fifteenth_tick() {
    let mut calc: RsiCalculator<f64> = RsiCalculator::new(DEFAULT_PERIOD);
    for i in 1..=14 {
        assert_eq!(feed(&mut calc, i as f64, "t"), None, "tick {}", i);
    }
    assert_eq!(feed(&mut calc, 15.0, "t15"), Some(100.0));
    assert_eq!(feed(&mut calc, 16.0, "t16"), Some(100.0));
    assert_eq!(calc.total_trades(), 16);
    assert_eq!(calc.latest_rsi(), Some(100.0));
    assert_eq!(calc.averages(), Some((1.0, 0.0)));
}

#[test]
fn decreasing_prices_give_zero() {
    let mut calc: RsiCalculator<f64> = RsiCalculator::new(DEFAULT_PERIOD);
    let mut last = None;
    for i in 0..20 {
        last = feed(&mut calc, 100.0 - i as f64, "t");
    }
    assert_eq!(last, Some(0.0));
    let (g, _) = calc.averages().unwrap();
    assert_eq!(g, 0.0);
}

#[test]
fn phases_follow_the_tick_count() {
    let mut calc: RsiCalculator<f64> = RsiCalculator::new(3);
    assert_eq!(calc.next_phase(), Phase::Warmup);
    feed(&mut calc, 1.0, "a");
    feed(&mut calc, 2.0, "b");
    feed(&mut calc, 3.0, "c");
    assert_eq!(calc.next_phase(), Phase::Priming);
    assert!(feed(&mut calc, 2.0, "d").is_some());
    assert_eq!(calc.next_phase(), Phase::Smoothing);
}

#[test]
fn mixed_window_averages() {
    // changes +2, -1, +1: gains 3/3 = 1, losses 1/3
    let mut calc: RsiCalculator<f64> = RsiCalculator::new(3);
    for p in [10.0, 12.0, 11.0] {
        assert_eq!(feed(&mut calc, p, "t"), None);
    }
    let rsi = feed(&mut calc, 12.0, "t").unwrap();
    assert!((rsi - 75.0).abs() < 1e-9);
    let (g, l) = calc.averages().unwrap();
    assert!((g - 1.0).abs() < 1e-12);
    assert!((l - 1.0 / 3.0).abs() < 1e-12);
    // smoothing with a drop of 3: g = 2/3, l = (2/3)(1/3) + 1 = 11/9
    let rsi = feed(&mut calc, 9.0, "t").unwrap();
    let (g, l) = calc.averages().unwrap();
    assert!((g - 2.0 / 3.0).abs() < 1e-12);
    assert!((l - 11.0 / 9.0).abs() < 1e-12);
    assert!((rsi - (100.0 - 100.0 / (1.0 + g / l))).abs() < 1e-9);
}

#[test]
fn unchanged_prices_count_as_losses_of_zero() {
    let mut calc: RsiCalculator<f64> = RsiCalculator::new(2);
    feed(&mut calc, 5.0, "a");
    feed(&mut calc, 5.0, "b");
    assert_eq!(feed(&mut calc, 5.0, "c"), Some(100.0));
    assert_eq!(calc.averages(), Some((0.0, 0.0)));
}

#[test]
fn non_positive_prices_change_nothing() {
    let mut calc: RsiCalculator<f64> = RsiCalculator::new(DEFAULT_PERIOD);
    assert_eq!(feed(&mut calc, 0.0, "z"), None);
    assert_eq!(feed(&mut calc, -3.0, "n"), None);
    assert_eq!(calc.total_trades(), 0);
    assert_eq!(calc.history().len(), 0);
    for i in 1..=20 {
        feed(&mut calc, i as f64, "t");
    }
    let averages = calc.averages();
    let rsi = calc.latest_rsi();
    assert_eq!(feed(&mut calc, -1.0, "n"), None);
    assert_eq!(calc.total_trades(), 20);
    assert_eq!(calc.averages(), averages);
    assert_eq!(calc.latest_rsi(), rsi);
    assert_eq!(calc.history().len(), 20);
    assert_eq!(calc.latest_price(), Some(20.0));
}

#[test]
fn first_tick_never_yields_a_value() {
    let mut calc: RsiCalculator<f64> = RsiCalculator::new(1);
    assert_eq!(feed(&mut calc, 4.0, "a"), None);
    assert_eq!(feed(&mut calc, 5.0, "b"), Some(100.0));
}

#[test]
fn history_keeps_the_newest_two_hundred() {
    let mut calc: RsiCalculator<f64> = RsiCalculator::new(DEFAULT_PERIOD);
    for i in 1..=250 {
        feed(&mut calc, i as f64, &format!("t{}", i));
    }
    let h = calc.history();
    assert_eq!(h.len(), MAX_HISTORY);
    assert_eq!(h[0].price, 51.0);
    assert_eq!(h[0].timestamp, "t51");
    assert_eq!(h[199].price, 250.0);
    assert_eq!(h[199].rsi, Some(100.0));
    assert_eq!(calc.total_trades(), 250);
}

#[test]
fn warmup_points_carry_no_value() {
    let mut calc: RsiCalculator<f64> = RsiCalculator::new(DEFAULT_PERIOD);
    for i in 1..=16 {
        feed(&mut calc, i as f64, "t");
    }
    let h = calc.history();
    assert!(h[..14].iter().all(|p| p.rsi.is_none()));
    assert!(h[14..].iter().all(|p| p.rsi == Some(100.0)));
}

#[test]
fn price_buffer_is_trimmed() {
    let mut calc: RsiCalculator<f64> = RsiCalculator::new(DEFAULT_PERIOD);
    for i in 1..=114 {
        feed(&mut calc, i as f64, "t");
    }
    assert_eq!(calc.prices().len(), 114);
    feed(&mut calc, 115.0, "t");
    assert_eq!(calc.prices().len(), 64);
    assert_eq!(calc.prices()[0], 52.0);
    assert_eq!(calc.latest_price(), Some(115.0));
}

#[test]
fn computed_values_are_passed_through() {
    let mut calc: RsiCalculator<i64> = RsiCalculator::new(1);
    assert_eq!(calc.add_price(7, true, None, "a".to_string()), None);
    let c = Computed { avg_gain: 3, avg_loss: 4, rsi: 42 };
    assert_eq!(calc.add_price(9, true, Some(c), "b".to_string()), Some(42));
    assert_eq!(calc.averages(), Some((3, 4)));
    assert_eq!(calc.history()[1].rsi, Some(42));
    assert_eq!(calc.history()[1].timestamp, "b");
}
