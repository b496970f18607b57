use jetx_scraper::double::Double;
use jetx_scraper::event::{parse_bet, parse_cashout};
use jetx_scraper::report::{band, recent, report, stats, tally, top_index, Band};
use jetx_scraper::state::RoundResult;

fn double(x: f64) -> Double {
    Double { bits: x.to_bits() }
}

fn doubles(xs: &[f64]) -> Vec<Double> {
    xs.iter().map(|x| double(*x)).collect()
}

#[test]
fn highest_is_the_last_of_equals() {
    assert_eq!(top_index(&doubles(&[])), None);
    assert_eq!(top_index(&doubles(&[f64::NAN])), Some(0));
    assert_eq!(top_index(&doubles(&[1.0, 3.0, 2.0, 3.0, 0.5])), Some(3));
    assert_eq!(top_index(&doubles(&[-1.0, -2.0])), Some(0));
    assert_eq!(top_index(&doubles(&[0.0, -0.0])), Some(1));
}

#[test]
fn statistics_need_three_rounds() {
    assert!(stats(&doubles(&[])).is_none());
    assert!(stats(&doubles(&[1.0, 2.0])).is_none());
    assert!(stats(&doubles(&[1.0, 2.0, 3.0])).is_some());
}

#[test]
fn quarters_are_taken_from_the_sorted_rounds() {
    let st = stats(&doubles(&[5.0, 1.0, 4.0, 2.0, 3.0, 8.0, 7.0, 6.0])).unwrap();
    assert_eq!(st.rounds, 8);
    assert_eq!(st.q1, double(3.0));
    assert_eq!(st.median, double(5.0));
    assert_eq!(st.q3, double(7.0));
    let st = stats(&doubles(&[3.0, 1.0, 2.0])).unwrap();
    assert_eq!((st.q1, st.median, st.q3), (double(1.0), double(2.0), double(3.0)));
}

#[test]
fn quarters_match_the_floating_formula() {
    for n in 3usize..40 {
        let xs: Vec<f64> = (0..n).map(|i| ((i * 7919) % 101) as f64 / 4.0).collect();
        let mut s = xs.clone();
        s.sort_by(|a, b| a.partial_cmp(b).unwrap());
        let m = n as f64;
        let st = stats(&doubles(&xs)).unwrap();
        assert_eq!(st.q1, double(s[(m * 0.25) as usize]));
        assert_eq!(st.median, double(s[(m * 0.50) as usize]));
        assert_eq!(st.q3, double(s[(m * 0.75) as usize]));
        let low = f64::from_bits(st.q1.bits);
        let high = f64::from_bits(st.q3.bits);
        let within = xs.iter().filter(|x| low <= **x && **x <= high).count();
        assert!(2 * within >= n);
        let under = xs.iter().filter(|x| **x < low).count();
        let up_to = xs.iter().filter(|x| **x <= low).count();
        assert!(under <= n / 4 && n / 4 < up_to);
        assert!(st.below_two <= st.below_three && st.below_three <= n);
    }
}

#[test]
fn equal_rounds_keep_their_order() {
    let st = stats(&doubles(&[0.0, -0.0, 0.0, -0.0])).unwrap();
    assert_eq!(st.q1, double(-0.0));
    assert_eq!(st.median, double(0.0));
    assert_eq!(st.q3, double(-0.0));
}

#[test]
fn order_of_rounds_does_not_matter() {
    let xs = [5.0, 1.0, 4.0, 2.5, 3.0, 2.5, 7.0];
    let first = stats(&doubles(&xs)).unwrap();
    for shift in 1..xs.len() {
        let mut ys = xs;
        ys.rotate_left(shift);
        let st = stats(&doubles(&ys)).unwrap();
        assert_eq!((st.rounds, st.q1, st.median, st.q3), (first.rounds, first.q1, first.median, first.q3));
        assert_eq!((st.below_two, st.below_three), (first.below_two, first.below_three));
    }
    assert_eq!((first.q1, first.median, first.q3), (double(2.5), double(3.0), double(5.0)));
    assert_eq!((first.below_two, first.below_three), (1, 3));
}

#[test]
fn low_rounds_are_counted() {
    let st = stats(&doubles(&[1.0, 1.99, 2.0, 2.5, 3.0, 10.0])).unwrap();
    assert_eq!(st.below_two, 2);
    assert_eq!(st.below_three, 4);
}

#[test]
fn bands_part_at_two_and_five() {
    assert_eq!(band(double(1.99)), Band::Low);
    assert_eq!(band(double(2.0)), Band::Middle);
    assert_eq!(band(double(4.99)), Band::Middle);
    assert_eq!(band(double(5.0)), Band::High);
}

#[test]
fn recent_rounds_come_latest_first() {
    let xs: Vec<f64> = (1..=20).map(|i| i as f64).collect();
    let r = recent(&doubles(&xs));
    assert_eq!(r.len(), 15);
    assert_eq!(r[0], (double(20.0), Band::High));
    assert_eq!(r[14], (double(6.0), Band::High));
    let r = recent(&doubles(&[1.0, 3.0]));
    assert_eq!(r, vec![(double(3.0), Band::Middle), (double(1.0), Band::Low)]);
}

#[test]
fn report_counts_normal_and_leaked() {
    let text = "bob_1.5_150_2.25_3.375_77_x_KES_2";
    let bet = || parse_bet(text, "1").unwrap();
    let cashout = || parse_cashout(text, "1").unwrap();
    let result = RoundResult {
        crash_multiplier: double(2.0),
        flight_time: double(1.0),
        normal_bets: vec![bet(), bet()],
        normal_cashouts: vec![cashout()],
        leaked_bets: vec![bet()],
        leaked_cashouts: vec![],
    };
    let r = report(&result, &doubles(&[1.5, 1.0]), &doubles(&[3.375]), &doubles(&[2.0]));
    for t in [&r.tally, &tally(&result)] {
        assert_eq!((t.normal_bets, t.leaked_bets, t.all_bets), (2, 1, 3));
        assert_eq!((t.normal_cashouts, t.leaked_cashouts, t.all_cashouts), (1, 0, 1));
    }
    assert_eq!(r.top_bet, Some(0));
    assert_eq!(r.top_cashout, Some(0));
    assert!(r.stats.is_none());
}
