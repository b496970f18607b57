use jetx_scraper::double::Double;
use jetx_scraper::message::{process_frame, process_message, Frame, Item, Notice};
use jetx_scraper::state::{collect_history, load_history, AppState, GameState, HISTORY_LIMIT};
use std::collections::VecDeque;

fn double(x: f64) -> Double {
    Double { bits: x.to_bits() }
}

fn fresh() -> AppState {
    AppState::new(VecDeque::new())
}

fn board() -> String {
    "{\"M\":\"gBoard\",\"A\":[]}".to_string()
}

fn flight(f: bool, v: &str, s: &str) -> String {
    format!("{{\"M\":\"response\",\"A\":[{{\"f\":{},\"v\":{},\"s\":{}}}]}}", f, v, s)
}

fn player(kind: &str, text: &str) -> String {
    format!("{{\"M\":\"g\",\"A\":[{{\"M\":\"{}\",\"I\":{{\"a\":\"{}\"}}}}]}}", kind, text)
}

fn frame(counter: &str, messages: &[String]) -> String {
    format!("{{\"C\":\"d-1,{}|x\",\"M\":[{}]}}", counter, messages.join(","))
}

const EVENT: &str = "bob_1.5_150_2.25_3.375_77_x_KES_2";

#[test]
fn new_state_waits_for_bets() {
    let st = AppState::new(VecDeque::from(vec![double(1.5)]));
    assert_eq!(st.game_state, GameState::WaitingForBets);
    assert_eq!(st.round_number, 0);
    assert_eq!(st.last_counter, None);
    assert_eq!(st.current_mult, double(1.0));
    assert_eq!(st.current_time, double(0.0));
    assert_eq!(st.history, VecDeque::from(vec![double(1.5)]));
}

#[test]
fn text_without_messages_changes_nothing() {
    let mut st = fresh();
    for raw in ["", "not json", "{}", "[]", "{\"M\":[]}", "{\"M\":1}", "{\"C\":\"d,1\"}", "{\"M\":[1]"] {
        assert!(process_message(raw, &mut st).is_empty(), "{}", raw);
    }
    assert_eq!(st.last_counter, None);
    assert_eq!(st.round_number, 0);
}

#[test]
fn round_goes_through_its_phases() {
    let mut st = fresh();
    let told = process_message(&frame("1", &[board()]), &mut st);
    assert!(matches!(&told[..], [Notice::Board { round: 1 }]));
    assert_eq!(st.game_state, GameState::WaitingForBets);

    let told = process_message(&frame("2", &[flight(false, "1.0", "0.0")]), &mut st);
    assert!(matches!(&told[..], [Notice::LiftOff { .. }]));
    assert_eq!(st.game_state, GameState::Flying);

    let told = process_message(&frame("3", &[flight(false, "1.75", "2.5")]), &mut st);
    assert!(matches!(&told[..], [Notice::Flight { .. }]));
    assert_eq!(st.game_state, GameState::Flying);
    assert_eq!(st.current_mult, double(1.75));
    assert_eq!(st.current_time, double(2.5));

    let told = process_message(&frame("4", &[flight(true, "3.25", "6.5")]), &mut st);
    match &told[..] {
        [Notice::Crash { mult, time }, Notice::Report { result, history }] => {
            assert_eq!(*mult, double(3.25));
            assert_eq!(*time, double(6.5));
            assert_eq!(result.crash_multiplier, double(3.25));
            assert_eq!(result.flight_time, double(6.5));
            assert_eq!(history, &vec![double(3.25)]);
        }
        other => panic!("{:?}", other),
    }
    assert_eq!(st.game_state, GameState::Crashed);
    assert_eq!(st.history, VecDeque::from(vec![double(3.25)]));
    assert_eq!(st.current_mult, double(1.75));
}

#[test]
fn lift_off_is_the_multiplier_one_at_time_zero() {
    for (v, s, off) in [("1", "0", true), ("1.0", "-0.0", true), ("1.01", "0", false), ("1", "0.1", false)] {
        let mut st = fresh();
        process_message(&frame("1", &[flight(false, v, s)]), &mut st);
        assert_eq!(st.game_state == GameState::Flying, off, "{} {}", v, s);
    }
    let mut st = fresh();
    process_message("{\"M\":[{\"M\":\"response\",\"A\":[{}]}]}", &mut st);
    assert_eq!(st.game_state, GameState::Flying);
}

#[test]
fn crash_flag_must_be_true() {
    let mut st = fresh();
    process_message("{\"M\":[{\"M\":\"response\",\"A\":[{\"f\":\"true\",\"v\":2,\"s\":1}]}]}", &mut st);
    assert_eq!(st.game_state, GameState::WaitingForBets);
    assert!(st.history.is_empty());
}

#[test]
fn bets_leak_once_the_plane_has_taken_off() {
    let mut st = fresh();
    process_message(&frame("1", &[player("b", EVENT)]), &mut st);
    assert_eq!((st.normal_bets.len(), st.leaked_bets.len()), (1, 0));
    process_message(&frame("2", &[flight(false, "1", "0")]), &mut st);
    let told = process_message(&frame("3", &[player("b", EVENT)]), &mut st);
    assert!(matches!(&told[..], [Notice::Bet { leak: true, .. }]));
    assert_eq!((st.normal_bets.len(), st.leaked_bets.len()), (1, 1));
    process_message(&frame("4", &[flight(true, "2", "1")]), &mut st);
    process_message(&frame("5", &[player("b", EVENT)]), &mut st);
    assert_eq!((st.normal_bets.len(), st.leaked_bets.len()), (1, 2));
}

#[test]
fn cashouts_leak_once_the_plane_has_crashed() {
    let mut st = fresh();
    process_message(&frame("1", &[flight(false, "1", "0")]), &mut st);
    let told = process_message(&frame("2", &[player("c", EVENT)]), &mut st);
    assert!(matches!(&told[..], [Notice::Cashout { leak: false, .. }]));
    assert_eq!((st.normal_cashouts.len(), st.leaked_cashouts.len()), (1, 0));
    process_message(&frame("3", &[flight(true, "2", "1")]), &mut st);
    process_message(&frame("4", &[player("c", EVENT)]), &mut st);
    assert_eq!((st.normal_cashouts.len(), st.leaked_cashouts.len()), (1, 1));
}

#[test]
fn cashouts_leak_behind_a_crash_in_the_same_frame() {
    let mut st = fresh();
    let messages = [player("c", EVENT), flight(true, "2", "1"), player("c", EVENT), board(), player("c", EVENT), player("b", EVENT)];
    let told = process_message(&frame("20", &messages), &mut st);
    assert_eq!(st.normal_cashouts.len(), 0);
    assert_eq!(st.leaked_cashouts.len(), 1);
    assert_eq!(st.normal_bets.len(), 1);
    let leaks: Vec<bool> = told
        .iter()
        .filter_map(|n| match n {
            Notice::Cashout { leak, .. } => Some(*leak),
            _ => None,
        })
        .collect();
    assert_eq!(leaks, vec![false, true, true]);
}

#[test]
fn report_gives_what_the_round_has_had() {
    let mut st = fresh();
    process_message(&frame("1", &[player("b", EVENT), player("b", EVENT)]), &mut st);
    process_message(&frame("2", &[flight(false, "1", "0")]), &mut st);
    process_message(&frame("3", &[player("b", EVENT), player("c", EVENT)]), &mut st);
    let told = process_message(&frame("4", &[flight(true, "2", "1")]), &mut st);
    let reports: Vec<&Notice> = told.iter().filter(|n| matches!(n, Notice::Report { .. })).collect();
    assert_eq!(reports.len(), 1);
    match reports[0] {
        Notice::Report { result, .. } => {
            assert_eq!(result.normal_bets.len(), 2);
            assert_eq!(result.leaked_bets.len(), 1);
            assert_eq!(result.normal_cashouts.len(), 1);
            assert_eq!(result.leaked_cashouts.len(), 0);
        }
        _ => unreachable!(),
    }
    assert_eq!(st.normal_bets.len(), 2);
}

#[test]
fn board_clears_the_round_and_keeps_the_rest() {
    let mut st = fresh();
    process_message(&frame("A", &[player("b", EVENT), player("c", EVENT), flight(true, "2", "1"), player("b", EVENT), player("c", EVENT)]), &mut st);
    process_message(&frame("B", &[board()]), &mut st);
    assert_eq!(st.round_number, 1);
    assert_eq!(st.last_counter, Some(0xB));
    assert_eq!(st.history.len(), 1);
    assert!(st.normal_bets.is_empty() && st.leaked_bets.is_empty());
    assert!(st.normal_cashouts.is_empty() && st.leaked_cashouts.is_empty());
    st.round_number = u32::MAX;
    st.reset_round();
    assert_eq!(st.round_number, 0);
}

#[test]
fn batched_messages_have_counters_of_their_own() {
    let mut st = fresh();
    let told = process_message(&frame("1F", &[player("b", EVENT), player("x", EVENT), player("c", EVENT)]), &mut st);
    match &told[..] {
        [Notice::Batch { count, counter }, Notice::Bet { bet, .. }, Notice::UnknownEvent { kind, counter: second }, Notice::Cashout { cashout, .. }] => {
            assert_eq!((*count, counter.as_str()), (3, "1F"));
            assert_eq!(bet.counter, "1D");
            assert_eq!((kind.as_str(), second.as_str()), ("x", "1E"));
            assert_eq!(cashout.counter, "1F");
        }
        other => panic!("{:?}", other),
    }
}

#[test]
fn single_message_keeps_the_counter_as_written() {
    let mut st = fresh();
    process_message(&frame("0a", &[player("b", EVENT)]), &mut st);
    assert_eq!(st.normal_bets[0].counter, "0a");
    assert_eq!(st.last_counter, Some(10));
    process_message(&format!("{{\"M\":[{}]}}", player("b", EVENT)), &mut st);
    assert_eq!(st.normal_bets[1].counter, "UNK");
    assert_eq!(st.last_counter, Some(10));
}

#[test]
fn gap_is_told_in_front_of_a_single_message() {
    let mut st = fresh();
    process_message(&frame("10", &[board()]), &mut st);
    let told = process_message(&frame("14", &[board()]), &mut st);
    match &told[..] {
        [Notice::Gap { last, counter, missed }, Notice::Board { .. }] => {
            assert_eq!((*last, counter.as_str(), *missed), (0x10, "14", 3));
        }
        other => panic!("{:?}", other),
    }
    let told = process_message(&frame("15", &[board()]), &mut st);
    assert_eq!(told.len(), 1);
    let told = process_message(&frame("40", &[board(), board()]), &mut st);
    assert!(matches!(&told[..], [Notice::Batch { .. }, Notice::Board { .. }, Notice::Board { .. }]));
}

#[test]
fn what_cannot_be_read_is_told() {
    let mut st = fresh();
    let odd = "{\"M\":\"other\"}".to_string();
    let empty = "{\"M\":\"\"}".to_string();
    let nameless = "{\"M\":5}".to_string();
    let bare = "{\"M\":\"g\"}".to_string();
    let told = process_message(&frame("5", &[player("c", "bad"), player("b", "worse"), odd, empty, nameless, bare]), &mut st);
    match &told[1..] {
        [Notice::BadCashout { text: c }, Notice::BadBet { text: b }, Notice::UnknownMessage { kind, counter }, Notice::UnknownEvent { kind: none, counter: last }] => {
            assert_eq!((c.as_str(), b.as_str()), ("bad", "worse"));
            assert_eq!((kind.as_str(), counter.as_str()), ("other", "2"));
            assert_eq!((none.as_str(), last.as_str()), ("", "5"));
        }
        other => panic!("{:?}", other),
    }
    assert!(st.normal_bets.is_empty() && st.normal_cashouts.is_empty());
}

#[test]
fn frame_is_taken_in_as_it_was_read() {
    let mut st = fresh();
    let f = Frame {
        counter_field: "d,7".to_string(),
        items: vec![Item {
            kind: Some("response".to_string()),
            crashed: Some(true),
            mult: None,
            time: None,
            event: None,
            event_text: None,
        }],
    };
    let told = process_frame(&f, &mut st);
    assert_eq!(told.len(), 2);
    assert_eq!(st.history, VecDeque::from(vec![double(1.0)]));
    assert_eq!(st.last_counter, Some(7));
    let none = Frame { counter_field: "d,9".to_string(), items: vec![] };
    assert!(process_frame(&none, &mut st).is_empty());
    assert_eq!(st.last_counter, Some(7));
}

#[test]
fn history_forgets_the_oldest_round() {
    let mut st = fresh();
    for i in 0..(HISTORY_LIMIT + 3) {
        st.crash(double(i as f64));
    }
    assert_eq!(st.history.len(), HISTORY_LIMIT);
    assert_eq!(st.history[0], double(3.0));
    assert_eq!(st.history[HISTORY_LIMIT - 1], double(502.0));
    let many: VecDeque<Double> = (0..600).map(|i| double(i as f64)).collect();
    let mut st = AppState::new(many);
    st.crash(double(9.5));
    assert_eq!(st.history.len(), 600);
    assert_eq!(st.history[0], double(1.0));
    assert_eq!(st.history[599], double(9.5));
}

#[test]
fn reported_rounds_are_finite_numbers() {
    let mut st = fresh();
    for v in ["1e308", "-1.5", "18446744073709551616", "null", "\"7\""] {
        let told = process_message(&frame("1", &[flight(true, v, "1")]), &mut st);
        match &told[1] {
            Notice::Report { history, .. } => {
                assert!(history.iter().all(|d| f64::from_bits(d.bits).is_finite()))
            }
            other => panic!("{:?}", other),
        }
    }
    let kept: Vec<f64> = st.history.iter().map(|d| f64::from_bits(d.bits)).collect();
    assert_eq!(kept, vec![1e308, -1.5, 18446744073709551616.0, 1.0, 1.0]);
}

#[test]
fn saved_history_is_read_back() {
    let h = load_history(Some("[1.5, 2, 3e1]"));
    assert_eq!(h, VecDeque::from(vec![double(1.5), double(2.0), double(30.0)]));
    let values: Vec<f64> = vec![1.0, 1.01, 2.37, 105.5, 1234.56];
    let text = serde_json::to_string(&values).unwrap();
    let back: Vec<f64> = load_history(Some(&text)).iter().map(|d| f64::from_bits(d.bits)).collect();
    assert_eq!(back, values);
}

#[test]
fn unreadable_history_is_empty() {
    assert!(load_history(None).is_empty());
    assert!(load_history(None).capacity() >= 200);
    for text in ["", "{}", "[1, null]", "[1, \"2\"]", "[1", "[[1]]", "[1e999]", "7"] {
        assert!(load_history(Some(text)).is_empty(), "{}", text);
        assert!(serde_json::from_str::<Vec<f64>>(text).is_err(), "{}", text);
    }
    assert!(collect_history(&vec![Some(double(1.0)), None]).is_empty());
    assert_eq!(collect_history(&vec![Some(double(1.0))]).len(), 1);
}

fn together_and_apart(messages: &[String]) -> (AppState, AppState) {
    let mut together = fresh();
    process_message(&frame("1F", messages), &mut together);
    let mut apart = fresh();
    for (i, m) in messages.iter().enumerate() {
        let counter = format!("{:X}", 0x20 - messages.len() + i);
        process_message(&frame(&counter, &[m.clone()]), &mut apart);
    }
    (together, apart)
}

#[test]
fn batch_does_what_its_messages_do() {
    let messages = vec![
        board(),
        player("b", EVENT),
        flight(false, "1.0", "0.0"),
        player("c", EVENT),
        player("b", EVENT),
        flight(true, "2.5", "4.0"),
        player("c", EVENT),
        board(),
        player("b", EVENT),
        flight(true, "3.5", "4.0"),
        player("c", EVENT),
    ];
    for n in 2..=messages.len() {
        let (together, apart) = together_and_apart(&messages[..n]);
        assert_eq!(format!("{:?}", together), format!("{:?}", apart));
    }
    let (together, _) = together_and_apart(&messages);
    assert_eq!(together.history, VecDeque::from(vec![double(2.5), double(3.5)]));
    assert_eq!((together.normal_bets.len(), together.leaked_cashouts.len()), (1, 1));
    assert_eq!(together.normal_bets[0].counter, "1D");
}

#[test]
fn cashout_after_a_crash_in_its_batch_is_late() {
    let messages = vec![flight(true, "2.5", "4.0"), board(), player("c", EVENT)];
    let (together, apart) = together_and_apart(&messages);
    assert_eq!((together.normal_cashouts.len(), together.leaked_cashouts.len()), (0, 1));
    assert_eq!((apart.normal_cashouts.len(), apart.leaked_cashouts.len()), (1, 0));
}
