use jetx_scraper::counter::{assign_sub_counters, gap, parse_counter};
use jetx_scraper::event::{parse_bet, parse_cashout};

#[test]
fn counter_stands_between_comma_and_bar() {
    assert_eq!(parse_counter("d-84A1,1F2|AB,0"), Some(("1F2".to_string(), 0x1F2)));
    assert_eq!(parse_counter("d-84A1,1f2"), Some(("1f2".to_string(), 0x1F2)));
    assert_eq!(parse_counter(", +a |x"), Some(("+a".to_string(), 10)));
    assert_eq!(parse_counter("x,FFFFFFFFFFFFFFFF,y"), Some(("FFFFFFFFFFFFFFFF".to_string(), u64::MAX)));
}

#[test]
fn field_without_counter_has_none() {
    assert_eq!(parse_counter(""), None);
    assert_eq!(parse_counter("1F2"), None);
    assert_eq!(parse_counter("d,"), None);
    assert_eq!(parse_counter("d,xyz|1"), None);
    assert_eq!(parse_counter("d,|1F"), None);
    assert_eq!(parse_counter("d,10000000000000000"), None);
    assert_eq!(parse_counter("d,-1"), None);
}

#[test]
fn written_counter_reads_back() {
    for n in [0u64, 1, 0xABC, u64::MAX] {
        for tail in ["", ",x|y", "|x,y"] {
            let field = format!("d-1|2,{:X}{}", n, tail);
            assert_eq!(parse_counter(&field), Some((format!("{:X}", n), n)));
        }
    }
}

#[test]
fn batched_messages_count_up_to_the_counter() {
    assert_eq!(assign_sub_counters(0x1F, 3), vec!["1D", "1E", "1F"]);
    assert_eq!(assign_sub_counters(2, 3), vec!["0", "1", "2"]);
    assert_eq!(assign_sub_counters(0, 1), vec!["0"]);
    assert_eq!(assign_sub_counters(u64::MAX, 2), vec!["FFFFFFFFFFFFFFFE", "FFFFFFFFFFFFFFFF"]);
}

#[test]
fn more_messages_than_counters_start_from_zero() {
    assert_eq!(assign_sub_counters(0, 3), vec!["0", "1", "2"]);
    assert_eq!(assign_sub_counters(1, 4), vec!["0", "1", "2", "3"]);
    assert!(assign_sub_counters(7, 0).is_empty());
}

#[test]
fn gap_is_as_wide_as_counters_are_missing() {
    assert_eq!(gap(None, 100), None);
    assert_eq!(gap(Some(5), 6), None);
    assert_eq!(gap(Some(5), 5), None);
    assert_eq!(gap(Some(5), 0), None);
    assert_eq!(gap(Some(5), 7), Some(1));
    assert_eq!(gap(Some(5), 16), Some(10));
    assert_eq!(gap(Some(u64::MAX), 3), Some(3));
    assert_eq!(gap(Some(u64::MAX), 0), None);
}

#[test]
fn cashout_takes_its_fields_by_position() {
    let ev = parse_cashout("bob_1.5_150_2.25_3.375_77_x_KES_2", "1F").unwrap();
    assert_eq!(ev.counter, "1F");
    assert_eq!(ev.player_name, "bob");
    assert_eq!(ev.bet_usd.as_str(), "1.5");
    assert_eq!(ev.bet_local.as_str(), "150");
    assert_eq!(ev.multiplier.as_str(), "2.25");
    assert_eq!(ev.cashout_usd.as_str(), "3.375");
    assert_eq!(ev.player_id, "77");
    assert_eq!(ev.currency, "KES");
    assert_eq!(ev.slot, 2);
}

#[test]
fn bet_takes_its_fields_by_position() {
    let ev = parse_bet("ann_0.5_50_zz__9_x_UGX_1_more_fields", "AB").unwrap();
    assert_eq!(ev.counter, "AB");
    assert_eq!(ev.player_name, "ann");
    assert_eq!(ev.bet_usd.as_str(), "0.5");
    assert_eq!(ev.bet_local.as_str(), "50");
    assert_eq!(ev.player_id, "9");
    assert_eq!(ev.currency, "UGX");
    assert_eq!(ev.slot, 1);
}

#[test]
fn event_with_too_few_fields_is_refused() {
    assert!(parse_cashout("bob_1_2_3_4_5_6_7", "1").is_none());
    assert!(parse_bet("bob_1_2_3_4_5_6_7", "1").is_none());
    assert!(parse_bet("", "1").is_none());
}

#[test]
fn event_with_a_bad_amount_is_refused() {
    for text in ["n_x_1_1_1_i_x_C_1", "n_1__1_1_i_x_C_1", "n_1_1_x_1_i_x_C_1", "n_1_1_1_1,5_i_x_C_1"] {
        assert!(parse_cashout(text, "1").is_none(), "{}", text);
    }
    assert!(parse_bet("n_x_1_1_1_i_x_C_1", "1").is_none());
    assert!(parse_bet("n_1__1_1_i_x_C_1", "1").is_none());
    assert!(parse_bet("n_1_1_x_1_i_x_C_1", "1").is_some());
}

#[test]
fn bad_slot_is_slot_zero() {
    for (text, slot) in [("255", 255u8), ("256", 0), ("", 0), ("-1", 0), ("+7", 7), ("a", 0)] {
        let written = format!("n_1_1_1_1_i_x_C_{}", text);
        assert_eq!(parse_bet(&written, "1").unwrap().slot, slot);
        assert_eq!(parse_cashout(&written, "1").unwrap().slot, slot);
    }
}

#[test]
fn copies_of_events_say_the_same() {
    let ev = parse_cashout("bob_1.5_150_2.25_3.375_77_x_KES_2", "1F").unwrap();
    let copy = ev.clone();
    assert_eq!(format!("{:?}", ev), format!("{:?}", copy));
    let bet = parse_bet("bob_1.5_150_2.25_3.375_77_x_KES_2", "1F").unwrap();
    assert_eq!(format!("{:?}", bet), format!("{:?}", bet.clone()));
}
