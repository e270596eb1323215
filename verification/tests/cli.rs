use openlink::cli_state::default_presence_heartbeat_seconds;
use openlink::numbers::parse_u64;

#[test]
fn heartbeat_defaults_to_twenty_five_seconds() {
    assert_eq!(default_presence_heartbeat_seconds(None), 25);
}

#[test]
fn heartbeat_uses_the_configured_value() {
    assert_eq!(default_presence_heartbeat_seconds(Some("10")), 10);
    assert_eq!(default_presence_heartbeat_seconds(Some("+7")), 7);
}

#[test]
fn heartbeat_is_at_least_one_second() {
    assert_eq!(default_presence_heartbeat_seconds(Some("0")), 1);
}

#[test]
fn heartbeat_ignores_unreadable_values() {
    assert_eq!(default_presence_heartbeat_seconds(Some("abc")), 25);
    assert_eq!(default_presence_heartbeat_seconds(Some(" 5")), 25);
    assert_eq!(default_presence_heartbeat_seconds(Some("")), 25);
    assert_eq!(default_presence_heartbeat_seconds(Some("18446744073709551616")), 25);
}

#[test]
fn u64_parse_matches_std() {
    for text in ["0", "42", "+42", "18446744073709551615", "18446744073709551616", "-1", "4a", "+", ""] {
        assert_eq!(parse_u64(text), text.parse::<u64>().ok(), "{}", text);
    }
}
