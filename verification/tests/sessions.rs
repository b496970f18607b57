use jetx_scraper::label::{batch_label, sep};
use jetx_scraper::message::Notice;
use jetx_scraper::double::Double;
use jetx_scraper::report::Band;
use jetx_scraper::session::{
    handshake, next_action, send_failure, take_in, Action, Backoff, Incoming, Sending, SessionEnd, SessionError,
};
use jetx_scraper::settings::{choose_port, choose_url, node_name};
use jetx_scraper::status::{health, root, status, Counters, Field, FieldValue};
use jetx_scraper::state::AppState;
use jetx_scraper::style::{band_color, tag, Color};

fn clean(lived: u64) -> SessionEnd {
    SessionEnd { clean: true, lived }
}

fn failed(lived: u64) -> SessionEnd {
    SessionEnd { clean: false, lived }
}

#[test]
fn waits_double_up_to_the_longest() {
    let mut b = Backoff::new();
    let waits: Vec<u64> = (0..9).map(|_| b.reconnect(clean(10))).collect();
    assert_eq!(waits, vec![1, 2, 4, 8, 16, 32, 64, 64, 64]);
}

#[test]
fn five_fast_failures_wait_longest() {
    let mut b = Backoff::new();
    let waits: Vec<u64> = (0..6).map(|_| b.reconnect(failed(0))).collect();
    assert_eq!(waits, vec![1, 2, 4, 8, 64, 64]);
}

#[test]
fn good_session_starts_the_waiting_over() {
    let mut b = Backoff::new();
    for _ in 0..6 {
        b.reconnect(failed(4));
    }
    assert_eq!(b.reconnect(clean(30)), 64);
    assert_eq!(b.reconnect(clean(31)), 1);
    assert_eq!(b.reconnect(failed(4)), 2);
    assert_eq!(b.reconnect(failed(5)), 1);
    assert_eq!(b.reconnect(failed(0)), 2);
}

#[test]
fn silence_fails_the_session() {
    let (action, up) = next_action(Incoming::Silence);
    assert!(!up);
    match action {
        Action::Fail { error } => assert_eq!(error.message(), "No data for 30s \u{2014} stale connection"),
        other => panic!("{:?}", other),
    }
}

#[test]
fn read_error_fails_the_session() {
    let (action, up) = next_action(Incoming::Failed { reason: "reset".to_string() });
    assert!(!up);
    match action {
        Action::Fail { error } => assert_eq!(error.message(), "WS read error: reset"),
        other => panic!("{:?}", other),
    }
}

#[test]
fn end_and_close_finish_the_session() {
    assert!(matches!(next_action(Incoming::Ended), (Action::Finish, false)));
    assert!(matches!(next_action(Incoming::Closed), (Action::Finish, false)));
}

#[test]
fn texts_are_trimmed_and_keep_alives_ignored() {
    for text in ["", "  ", "{}", " {}\n"] {
        assert!(matches!(next_action(Incoming::Text { text: text.to_string() }), (Action::Ignore, true)));
    }
    match next_action(Incoming::Text { text: " {\"M\":[]} \n".to_string() }) {
        (Action::Process { text }, true) => assert_eq!(text, "{\"M\":[]}"),
        other => panic!("{:?}", other),
    }
}

#[test]
fn pings_are_answered_and_others_ignored() {
    for payload in [vec![], vec![0u8], vec![1, 2, 3, 255]] {
        match next_action(Incoming::Ping { payload: payload.clone() }) {
            (Action::Pong { payload: sent }, true) => assert_eq!(sent, payload),
            other => panic!("{:?}", other),
        }
    }
    assert!(matches!(next_action(Incoming::Other), (Action::Ignore, true)));
}

#[test]
fn errors_say_what_failed() {
    let reason = || "why".to_string();
    assert_eq!(SessionError::Tls { reason: reason() }.message(), "TLS build error: why");
    assert_eq!(SessionError::ConnectTimeout.message(), "Connect timed out (15s)");
    assert_eq!(SessionError::Connect { reason: reason() }.message(), "WS connect error: why");
    assert_eq!(SessionError::Handshake { reason: reason() }.message(), "Handshake failed: why");
}

fn shown(fields: &[Field]) -> Vec<String> {
    fields
        .iter()
        .map(|f| match &f.value {
            FieldValue::Text(s) => format!("{}={}", f.name, s),
            FieldValue::Count(n) => format!("{}={}", f.name, n),
            FieldValue::Flag(b) => format!("{}={}", f.name, b),
        })
        .collect()
}

#[test]
fn endpoints_answer_with_the_counts() {
    let c = Counters { rounds: 3, history: 5, connected: true, reconnects: 7 };
    assert_eq!(
        shown(&root(&c)),
        vec!["service=JetX Data Scraper", "status=running", "rounds_tracked=3", "history_rounds=5", "ws_connected=true", "reconnects=7"]
    );
    assert_eq!(shown(&health(&c)), vec!["status=healthy", "ws_connected=true", "rounds=3"]);
    assert_eq!(
        shown(&status(&c)),
        vec!["status=monitoring", "rounds_tracked=3", "history_size=5", "reconnects=7", "ws_live=true"]
    );
}

#[test]
fn address_comes_from_the_environment_first() {
    let s = |x: &str| x.to_string();
    assert_eq!(choose_url(Some(s("e")), Some(s("a")), s("b")), "e");
    assert_eq!(choose_url(None, Some(s("a")), s("b")), "a");
    assert_eq!(choose_url(None, None, s("b")), "b");
}

#[test]
fn bad_port_is_the_default_port() {
    assert_eq!(choose_port(None), 8000);
    assert_eq!(choose_port(Some("3000")), 3000);
    assert_eq!(choose_port(Some("65535")), 65535);
    assert_eq!(choose_port(Some("65536")), 8000);
    assert_eq!(choose_port(Some("http")), 8000);
    assert_eq!(choose_port(Some("")), 8000);
}

#[test]
fn node_is_the_server_of_the_address() {
    assert_eq!(node_name("wss://eu.example.com/x/y"), "eu.example.com");
    assert_eq!(node_name("no address"), "?");
    assert_eq!(node_name("a/b"), "?");
}

#[test]
fn rules_fill_their_width() {
    assert_eq!(sep("AB"), format!("\u{2500}\u{2500}\u{2500}\u{2500} AB {}", "\u{2500}".repeat(52)));
    assert_eq!(sep("AB").chars().count(), 60);
    let long = "x".repeat(70);
    assert_eq!(sep(&long), format!("\u{2500}\u{2500}\u{2500}\u{2500} {} ", long));
    assert_eq!(sep("\u{e9}").chars().count(), 59);
    assert_eq!(batch_label(12, "1F"), "BATCH x12 @ 1F");
}

#[test]
fn notices_have_their_tags() {
    let one = Double { bits: 1.0f64.to_bits() };
    let cases = vec![
        (Notice::Gap { last: 1, counter: "3".to_string(), missed: 1 }, "[GAP]", Color::Gray),
        (Notice::Board { round: 1 }, "[gBOARD]", Color::Gray),
        (Notice::LiftOff { mult: one, time: one }, "[CASE 1 START]", Color::Cyan),
        (Notice::Flight { mult: one, time: one }, "[FLYING]", Color::Cyan),
        (Notice::Crash { mult: one, time: one }, "[CASE 3 CRASH]", Color::Red),
        (Notice::BadBet { text: String::new() }, "[WARN]", Color::Yellow),
        (Notice::BadCashout { text: String::new() }, "[WARN]", Color::Yellow),
        (Notice::UnknownEvent { kind: String::new(), counter: String::new() }, "[UNK]", Color::Gray),
        (Notice::UnknownMessage { kind: String::new(), counter: String::new() }, "[UNK]", Color::Gray),
    ];
    for (notice, text, color) in cases {
        let t = tag(&notice).unwrap();
        assert_eq!((t.text.as_str(), t.color), (text, color));
        assert_eq!(t.bold, ["[gBOARD]", "[CASE 1 START]", "[CASE 3 CRASH]"].contains(&text));
    }
    assert!(tag(&Notice::Batch { count: 2, counter: "1".to_string() }).is_none());
}

#[test]
fn leaks_are_red() {
    let text = "bob_1.5_150_2.25_3.375_77_x_KES_2";
    let cases = [(false, "[BET]", Color::Blue, "[CASHOUT]", Color::Green), (true, "[LEAK-BET]", Color::Red, "[LEAK-CASHOUT]", Color::Red)];
    for (leak, bet_tag, bet_color, cash_tag, cash_color) in cases {
        let bet = jetx_scraper::event::parse_bet(text, "1").unwrap();
        let cashout = jetx_scraper::event::parse_cashout(text, "1").unwrap();
        let b = tag(&Notice::Bet { bet, leak }).unwrap();
        let c = tag(&Notice::Cashout { cashout, leak }).unwrap();
        assert_eq!((b.text.as_str(), b.color), (bet_tag, bet_color));
        assert_eq!((c.text.as_str(), c.color), (cash_tag, cash_color));
        assert!(b.bold && c.bold);
    }
    assert_eq!(band_color(Band::Low), Color::Red);
    assert_eq!(band_color(Band::Middle), Color::Yellow);
    assert_eq!(band_color(Band::High), Color::Green);
}

#[test]
fn session_opens_with_an_empty_object() {
    assert_eq!(handshake(), "{}");
}

#[test]
fn only_an_unsent_handshake_ends_the_session() {
    match send_failure(Sending::Handshake, "broken pipe".to_string()) {
        Some(error) => assert_eq!(error.message(), "Handshake failed: broken pipe"),
        None => panic!("the session goes on"),
    }
    assert!(send_failure(Sending::Pong, "broken pipe".to_string()).is_none());
}

#[test]
fn pongs_answer_pings_in_order() {
    let mut state = AppState::new(Default::default());
    let events = vec![
        Incoming::Ping { payload: vec![1] },
        board_frame(1),
        Incoming::Ping { payload: vec![] },
        Incoming::Other,
        Incoming::Ping { payload: vec![3, 2, 1] },
        Incoming::Ended,
        Incoming::Ping { payload: vec![9] },
    ];
    let mut sent: Vec<Vec<u8>> = Vec::new();
    for event in events {
        let (action, up, _) = take_in(event, &mut state);
        if let Action::Pong { payload } = action {
            sent.push(payload);
        }
        if !up {
            break;
        }
    }
    assert_eq!(sent, vec![vec![1], vec![], vec![3, 2, 1]]);
}

fn board_frame(counter: u64) -> Incoming {
    Incoming::Text { text: format!("  {{\"C\":\"d,{:X}\",\"M\":[{{\"M\":\"gBoard\"}}]}}\n", counter) }
}

#[test]
fn session_takes_in_its_messages_in_order() {
    let mut state = AppState::new(Default::default());
    let events = vec![
        board_frame(1),
        Incoming::Ping { payload: vec![7] },
        Incoming::Text { text: " {} ".to_string() },
        Incoming::Text { text: "\n".to_string() },
        board_frame(2),
        Incoming::Other,
        Incoming::Text { text: "not json".to_string() },
        board_frame(5),
        Incoming::Closed,
        board_frame(9),
    ];
    let mut told: Vec<String> = Vec::new();
    for event in events {
        let (_, up, notices) = take_in(event, &mut state);
        told.extend(notices.iter().map(|n| format!("{:?}", n)));
        if !up {
            break;
        }
    }
    assert_eq!(state.round_number, 3);
    assert_eq!(state.last_counter, Some(5));
    assert_eq!(told.len(), 4);
    assert_eq!(told[0], "Board { round: 1 }");
    assert_eq!(told[1], "Board { round: 2 }");
    assert!(told[2].starts_with("Gap"));
    assert_eq!(told[3], "Board { round: 3 }");
}

#[test]
fn only_messages_act_on_the_state() {
    let events = vec![
        Incoming::Silence,
        Incoming::Ended,
        Incoming::Failed { reason: "reset".to_string() },
        Incoming::Ping { payload: vec![7] },
        Incoming::Closed,
        Incoming::Other,
        Incoming::Text { text: "{}".to_string() },
    ];
    for event in events {
        let mut state = AppState::new(Default::default());
        let before = format!("{:?}", state);
        let (_, _, notices) = take_in(event, &mut state);
        assert!(notices.is_empty());
        assert_eq!(format!("{:?}", state), before);
    }
}
