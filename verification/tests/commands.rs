use martian_dedup::command::{human_duration_parser, CommandParseError, Span};
use martian_dedup::ignore::{ignore_reply, rows_total};
use martian_dedup::mute::{mute_interval, mute_reply};
use martian_dedup::text::{starts_with, u64_to_decimal};
use martian_dedup::whitelist::whitelist_msg;

fn span(s: &str) -> Span {
    match human_duration_parser(s) {
        Ok(span) => span,
        Err(CommandParseError::IncorrectFormat(m)) => panic!("{}: {}", s, m),
    }
}

#[test]
fn durations_are_read() {
    let d = span("1h");
    assert_eq!((d.secs, d.nanos), (3600, 0));
    let d = span("1.5");
    assert_eq!((d.secs, d.nanos), (1, 500_000_000));
    let d = span("+1.09e1");
    assert_eq!((d.secs, d.nanos), (10, 900_000_000));
    let d = span("0");
    assert_eq!((d.secs, d.nanos), (0, 0));
}

#[test]
fn bad_duration_is_refused() {
    match human_duration_parser("Not a number") {
        Err(CommandParseError::IncorrectFormat(m)) => assert!(!m.is_empty()),
        Ok(_) => panic!("accepted"),
    }
}

#[test]
fn mute_interval_in_microseconds() {
    assert_eq!(mute_interval(&Span { secs: 3600, nanos: 0 }), Ok(3_600_000_000));
    assert_eq!(mute_interval(&Span { secs: 1, nanos: 500_000_000 }), Ok(1_500_000));
    assert_eq!(mute_interval(&Span { secs: 0, nanos: 0 }), Ok(0));
}

#[test]
fn mute_interval_refuses_nanoseconds() {
    assert_eq!(
        mute_interval(&Span { secs: 1, nanos: 1 }),
        Err("PostgreSQL `INTERVAL` does not support nanoseconds precision".to_string())
    );
}

#[test]
fn mute_interval_refuses_overflow() {
    assert!(mute_interval(&Span { secs: u64::MAX, nanos: 0 }).is_err());
    let limit = (i64::MAX as u64) / 1_000_000;
    assert_eq!(mute_interval(&Span { secs: limit, nanos: 0 }), Ok((limit * 1_000_000) as i64));
    assert!(mute_interval(&Span { secs: limit + 1, nanos: 0 }).is_err());
}

#[test]
fn mute_replies() {
    assert_eq!(mute_reply(&Span { secs: 0, nanos: 0 }, "ignored"), "unmuted.");
    assert_eq!(
        mute_reply(&Span { secs: 60, nanos: 0 }, "2024-01-01 0:00:00.0 +00:00:00"),
        "muted until 2024-01-01 0:00:00.0 +00:00:00."
    );
    assert_eq!(mute_reply(&Span { secs: 0, nanos: 1 }, "t"), "muted until t.");
}

#[test]
fn ignore_replies_count_entities() {
    assert_eq!(ignore_reply(true, Some((2, 1, 0))), "3 entities ignored.");
    assert_eq!(ignore_reply(false, Some((0, 0, 0))), "0 entities unignored.");
    assert_eq!(ignore_reply(true, Some((u64::MAX - 1, 1, 0))), "18446744073709551615 entities ignored.");
}

#[test]
fn ignore_replies_without_target() {
    assert_eq!(ignore_reply(true, None), "You must reply to a message to ignore it.");
    assert_eq!(ignore_reply(false, None), "You must reply to a message to unignore it.");
}

#[test]
fn rows_add_up() {
    assert_eq!(rows_total(&vec![]), 0);
    assert_eq!(rows_total(&vec![1, 0, 2, 5]), 8);
}

#[test]
fn decimal_rendering() {
    assert_eq!(u64_to_decimal(0), "0");
    assert_eq!(u64_to_decimal(7), "7");
    assert_eq!(u64_to_decimal(10), "10");
    assert_eq!(u64_to_decimal(1203), "1203");
    assert_eq!(u64_to_decimal(u64::MAX), u64::MAX.to_string());
}

#[test]
fn prefixes() {
    assert!(starts_with("abc", ""));
    assert!(starts_with("abc", "ab"));
    assert!(!starts_with("ab", "abc"));
    assert!(starts_with("看过了吗", "看过"));
}

#[test]
fn eval_commands_are_whitelisted() {
    assert!(whitelist_msg("/eval 1 + 1"));
    assert!(!whitelist_msg("/eval"));
    assert!(!whitelist_msg("hello /eval x"));
    assert!(!whitelist_msg(""));
}

#[test]
fn bad_duration_carries_fundu_message() {
    for text in ["Not a number", "", "1x", "-1"] {
        let want = fundu::parse_duration(text).unwrap_err().to_string();
        match human_duration_parser(text) {
            Ok(_) => panic!("{} was read", text),
            Err(CommandParseError::IncorrectFormat(m)) => assert_eq!(m, want),
        }
    }
}

#[test]
fn mute_overflow_carries_conversion_message() {
    let want = sqlx::postgres::types::PgInterval::try_from(std::time::Duration::new(u64::MAX, 0))
        .unwrap_err()
        .to_string();
    assert!(!want.is_empty());
    assert_eq!(mute_interval(&Span { secs: u64::MAX, nanos: 0 }), Err(want));
}
