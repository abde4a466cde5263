use alien_codec::demodulate::{
    blank_reply_text, render_term, consume_token, decode_int, expect_int, expect_token, parse_int, parse_response_text,
};
use alien_codec::modulate::{mod_int, mod_str};
use alien_codec::numeral::{parse_i64, push_decimal};
use alien_codec::request::{
    make_commands_request, make_join_request, make_start_request, next_commands_request,
    opening_start_request,
};
use alien_codec::response::{decode_response2, parse_game_response, read_game_response, still_reply_text};

fn m(i: i64) -> String {
    mod_int(i)
}

#[test]
fn mod_int_extremes() {
    let max = mod_int(i64::MAX);
    assert_eq!(max, format!("01{}0{:064b}", "1".repeat(16), i64::MAX));
    let min = mod_int(i64::MIN + 1);
    assert_eq!(min, format!("10{}0{:064b}", "1".repeat(16), i64::MAX));
    assert_eq!(mod_int(-256), "101110000100000000");
    assert_eq!(mod_int(16), "0111000010000");
}

#[test]
fn mod_int_length_is_three_plus_five_per_group() {
    for (i, groups) in [(1i64, 1usize), (15, 1), (16, 2), (255, 2), (256, 3), (-4096, 4)] {
        assert_eq!(mod_int(i).len(), 3 + 5 * groups);
        assert!(mod_int(i).chars().all(|c| c == '0' || c == '1'));
    }
}

#[test]
fn mod_str_codes() {
    assert_eq!(mod_str("("), "11");
    assert_eq!(mod_str(","), "11");
    assert_eq!(mod_str("cons"), "11");
    assert_eq!(mod_str(")"), "00");
    assert_eq!(mod_str("nil"), "00");
}

#[test]
fn int_round_trip() {
    for i in [0i64, 1, -1, 2, 15, 16, -17, 256, 10000, -123456789, (1i64 << 60) - 1, -((1i64 << 60) - 1)] {
        let text = format!("{}1100", mod_int(i));
        let (v, rest) = decode_int(&text);
        assert_eq!(v, i);
        assert_eq!(rest, "1100");
    }
}

#[test]
fn int_round_trip_stops_at_two_to_the_sixty() {
    let big = mod_int(1i64 << 60);
    assert_eq!(parse_int(&big), None);
    let min = mod_int(i64::MIN + 1);
    assert_eq!(parse_int(&min), None);
    let below = mod_int(-(1i64 << 60));
    assert_eq!(parse_int(&below), None);
}

#[test]
fn parse_int_rejects_malformed_input() {
    assert_eq!(parse_int(""), None);
    assert_eq!(parse_int("0"), None);
    assert_eq!(parse_int("11010"), None);
    assert_eq!(parse_int("0111"), None);
    assert_eq!(parse_int("0110001"), None);
    assert_eq!(parse_int("0110000a"), None);
    assert_eq!(parse_int("01"), None);
}

#[test]
fn parse_int_reads_decimal_digits_as_binary_weights() {
    assert_eq!(parse_int("01100002"), Some((2, "")));
    assert_eq!(parse_int("01109999xyz"), Some((135, "xyz")));
    assert_eq!(parse_int("10100001"), Some((-1, "")));
}

#[test]
fn tokens() {
    assert_eq!(consume_token("1101", "("), ("01", true));
    assert_eq!(consume_token("1101", "nil"), ("1101", false));
    assert_eq!(consume_token("00", ")"), ("", true));
    assert_eq!(expect_token("0011", "nil"), "11");
    assert_eq!(expect_token("11", "cons"), "");
    expect_int("01100001");
    expect_int("10");
}

#[test]
fn parse_i64_like_str_parse() {
    assert_eq!(parse_i64("10000"), Some(10000));
    assert_eq!(parse_i64("-5"), Some(-5));
    assert_eq!(parse_i64("+7"), Some(7));
    assert_eq!(parse_i64("007"), Some(7));
    assert_eq!(parse_i64(""), None);
    assert_eq!(parse_i64("-"), None);
    assert_eq!(parse_i64("+"), None);
    assert_eq!(parse_i64("12a"), None);
    assert_eq!(parse_i64(" 1"), None);
    assert_eq!(parse_i64("9223372036854775807"), Some(i64::MAX));
    assert_eq!(parse_i64("9223372036854775808"), None);
    assert_eq!(parse_i64("-9223372036854775808"), Some(i64::MIN));
    assert_eq!(parse_i64("-9223372036854775809"), None);
    for s in ["0", "42", "-42", "+42", "99999999999999999999", "x"] {
        assert_eq!(parse_i64(s), s.parse::<i64>().ok());
    }
}

#[test]
fn decimal_text_round_trip() {
    for i in [0i64, 7, -7, 10, 1234567890, i64::MAX, i64::MIN] {
        let mut out = String::new();
        push_decimal(&mut out, i);
        assert_eq!(out, i.to_string());
        assert_eq!(parse_i64(&out), Some(i));
    }
}

#[test]
fn response_text_of_small_terms() {
    assert_eq!(parse_response_text(""), Some(String::new()));
    assert_eq!(parse_response_text("010"), Some("0".to_owned()));
    assert_eq!(parse_response_text("10100001"), Some("-1".to_owned()));
    assert_eq!(parse_response_text("00"), Some("nil".to_owned()));
    assert_eq!(parse_response_text("1100"), Some("()".to_owned()));
    assert_eq!(parse_response_text("1101000"), Some("(0)".to_owned()));
    assert_eq!(parse_response_text("0"), None);
    assert_eq!(parse_response_text("11"), None);
    assert_eq!(parse_response_text("110"), None);
    assert_eq!(parse_response_text("22"), None);
    assert_eq!(parse_response_text("1100\u{e9}"), Some("(nil)".to_owned()));
}

#[test]
fn response_text_of_modulated_ints() {
    for i in [0i64, 1, -1, 300, -70000, (1i64 << 60) - 1] {
        assert_eq!(parse_response_text(&mod_int(i)), Some(i.to_string()));
    }
}

fn header(stage: i64, role: i64) -> String {
    format!(
        "11{}11{}1111{}11{}1111{}11{}11{}001111{}11{}0011",
        m(1), m(stage), m(256), m(role), m(448), m(1), m(64), m(16), m(128)
    )
}

#[test]
fn game_response_without_state() {
    let nil_x4 = format!("{}00" , header(0, 1)) + "0011" + "00";
    assert_eq!(parse_game_response(&nil_x4), Some((0, 1, 0, 0, 0, 0, 0)));
    let quad_x4 = format!("{}11{}11{}11{}11{}00", header(2, 0), m(1), m(2), m(3), m(4)) + "0011" + "00";
    assert_eq!(decode_response2(&quad_x4), (2, 0, 0, 0, 0, 0, 0));
}

#[test]
fn game_response_with_state() {
    let state = format!(
        "11{}1111{}11{}0011111111{}11{}1111{}{}1111{}{}",
        m(7), m(16), m(128), m(0), m(5), m(-9), m(46), m(3), m(-4)
    );
    let text = format!("{}00", header(1, 1)) + "0011" + &state + "0000";
    assert_eq!(parse_game_response(&text), Some((1, 0, 5, -9, 46, 3, -4)));
}

#[test]
fn game_response_rejects_malformed_input() {
    assert_eq!(parse_game_response(""), None);
    assert_eq!(parse_game_response("1101100001"), None);
    let cut = header(1, 1);
    assert_eq!(parse_game_response(&cut), None);
    let bad_x4 = format!("{}01", header(1, 1));
    assert_eq!(parse_game_response(&bad_x4), None);
}

#[test]
fn requests() {
    assert_eq!(
        make_join_request("10000"),
        "11011000101101111100010011100010000110000"
    );
    assert_eq!(
        make_start_request("10000", 1, 1, 1, 1),
        "110110001111011111000100111000100001111011000011101100001110110000111011000010000"
    );
    assert_eq!(
        make_commands_request("10000", 1, -1, 2),
        format!("11{}11{}111111{}11{}1111{}{}000000", m(4), m(10000), m(0), m(1), m(-1), m(2))
    );
    assert_eq!(
        make_join_request("-3"),
        format!("11{}11{}110000", m(2), m(-3))
    );
}

#[test]
fn client_steps() {
    assert_eq!(opening_start_request("10000"), make_start_request("10000", 442, 1, 0, 1));
    let response = (1, 1, 0, -9, -46, -1, 1);
    assert_eq!(
        next_commands_request("10000", 0, response),
        make_commands_request("10000", 0, -1, 1)
    );
}

#[test]
fn game_response_with_trailing_text_reads_the_same() {
    let state = format!(
        "11{}1111{}11{}0011111111{}11{}1111{}{}1111{}{}",
        m(7), m(16), m(128), m(0), m(5), m(-9), m(46), m(3), m(-4)
    );
    let text = format!("{}00", header(1, 1)) + "0011" + &state;
    let longer = text.clone() + "0000110100001";
    assert_eq!(parse_game_response(&text), parse_game_response(&longer));
    assert_eq!(parse_game_response(&text), Some((1, 0, 5, -9, 46, 3, -4)));
}

#[test]
fn recorded_replies_next_to_their_neighbours() {
    let blank = blank_reply_text();
    assert_eq!(parse_response_text(blank), Some(String::new()));
    assert!(render_term(blank).unwrap().starts_with("(1(1((384"));
    let still = still_reply_text();
    assert_eq!(parse_game_response(still), Some((1, 1, 0, 0, 0, 0, 0)));
    assert_eq!(read_game_response(still), Some((1, 1, 0, 28, 34, -2, -6)));
    let still_longer = format!("{}00", still);
    assert_eq!(parse_game_response(&still_longer), Some((1, 1, 0, 28, 34, -2, -6)));
}
