use discord_statistics::config::{format_channel_spec, parse_channel_spec, Config};
use discord_statistics::error::ConfigError;
use discord_statistics::resolve::{
    find_channel_by_name, find_named_channel, name_matches, ChannelInfo, ChannelKind,
    NamedChannel,
};
use discord_statistics::text::{parse_u64, str_lt};

#[test]
fn parse_u64_accepts_plain_and_plus_prefixed_decimals() {
    assert_eq!(parse_u64("0"), Some(0));
    assert_eq!(parse_u64("123"), Some(123));
    assert_eq!(parse_u64("+42"), Some(42));
    assert_eq!(parse_u64("18446744073709551615"), Some(u64::MAX));
}

#[test]
fn parse_u64_rejects_everything_else() {
    assert_eq!(parse_u64(""), None);
    assert_eq!(parse_u64("+"), None);
    assert_eq!(parse_u64("-1"), None);
    assert_eq!(parse_u64("12a"), None);
    assert_eq!(parse_u64("a12"), None);
    assert_eq!(parse_u64("1 2"), None);
    assert_eq!(parse_u64("++1"), None);
    assert_eq!(parse_u64("18446744073709551616"), None); // one past the top
}

#[test]
fn specifier_with_pipe_is_guild_and_channel() {
    assert_eq!(parse_channel_spec("123|456"), Ok((Some(123), 456)));
}

#[test]
fn bare_specifier_is_a_direct_message_channel() {
    assert_eq!(parse_channel_spec("789"), Ok((None, 789)));
}

#[test]
fn text_past_a_second_pipe_is_ignored() {
    assert_eq!(parse_channel_spec("1|2|3"), Ok((Some(1), 2)));
}

#[test]
fn malformed_specifiers_are_rejected() {
    assert_eq!(parse_channel_spec(""), Err(ConfigError::InvalidChannelFormat));
    assert_eq!(parse_channel_spec("|5"), Err(ConfigError::InvalidChannelFormat));
    assert_eq!(parse_channel_spec("5|"), Err(ConfigError::InvalidChannelFormat));
    assert_eq!(parse_channel_spec("a|5"), Err(ConfigError::InvalidChannelFormat));
    assert_eq!(parse_channel_spec("5|b"), Err(ConfigError::InvalidChannelFormat));
    assert_eq!(parse_channel_spec("nope"), Err(ConfigError::InvalidChannelFormat));
}

#[test]
fn tracked_channels_parses_the_whole_list_in_order() {
    let config = Config {
        discord_token: String::new(),
        tracked_channels: vec!["1|2".to_string(), "3".to_string(), "4|5".to_string()],
    };
    assert_eq!(
        config.tracked_channels().unwrap(),
        vec![(Some(1), 2), (None, 3), (Some(4), 5)]
    );
}

#[test]
fn tracked_channels_stops_at_the_first_bad_specifier() {
    let config = Config {
        discord_token: String::new(),
        tracked_channels: vec!["1|2".to_string(), "broken".to_string(), "3".to_string()],
    };
    assert_eq!(
        config.tracked_channels().unwrap_err(),
        ConfigError::InvalidChannelFormat
    );
}

#[test]
fn empty_list_tracks_nothing() {
    let config = Config { discord_token: String::new(), tracked_channels: Vec::new() };
    assert_eq!(config.tracked_channels().unwrap(), Vec::new());
}

#[test]
fn identifiers_render_in_canonical_decimal() {
    assert_eq!(discord_statistics::text::u64_to_dec(0), "0");
    assert_eq!(discord_statistics::text::u64_to_dec(100), "100");
    assert_eq!(
        discord_statistics::text::u64_to_dec(u64::MAX),
        "18446744073709551615"
    );
    assert_eq!(parse_u64(&discord_statistics::text::u64_to_dec(987_654_321)), Some(987_654_321));
}

#[test]
fn formatted_specifiers_parse_back_to_their_pair() {
    assert_eq!(format_channel_spec(Some(123), 456), "123|456");
    assert_eq!(format_channel_spec(None, 789), "789");
    assert_eq!(
        parse_channel_spec(&format_channel_spec(Some(1), 2)),
        Ok((Some(1), 2))
    );
    assert_eq!(parse_channel_spec(&format_channel_spec(None, 3)), Ok((None, 3)));
}

#[test]
fn lexicographic_order_on_date_strings() {
    assert!(str_lt("1970-01-01", "1970-01-02"));
    assert!(str_lt("1999-12-31", "2000-01-01"));
    assert!(!str_lt("2000-01-01", "2000-01-01"));
    assert!(!str_lt("2000-01-02", "2000-01-01"));
    assert!(str_lt("abc", "abcd")); // a proper prefix precedes
    assert!(!str_lt("abcd", "abc"));
    assert!(str_lt("", "a"));
}

#[test]
fn names_match_case_insensitively() {
    assert!(name_matches("General", "gENERAL"));
    assert!(name_matches("abc", "abc"));
    assert!(!name_matches("general", "genera1"));
}

#[test]
fn channel_resolution_honors_kind_and_order() {
    let channels = vec![
        ChannelInfo { channel_id: 1, name: "logs".to_string(), kind: ChannelKind::Other },
        ChannelInfo { channel_id: 2, name: "Logs".to_string(), kind: ChannelKind::Text },
        ChannelInfo { channel_id: 3, name: "logs".to_string(), kind: ChannelKind::News },
    ];
    // the voice-like channel is skipped; the first conversation-capable
    // match wins
    assert_eq!(find_channel_by_name(&channels, "LOGS"), Some(2));
    assert_eq!(find_channel_by_name(&channels, "missing"), None);
}

#[test]
fn private_channel_resolution_matches_partner_names() {
    let channels = vec![
        NamedChannel { channel_id: 10, name: "Alex".to_string() },
        NamedChannel { channel_id: 11, name: "Sam".to_string() },
    ];
    assert_eq!(find_named_channel(&channels, "sam"), Some(11));
    assert_eq!(find_named_channel(&channels, "nobody"), None);
}
