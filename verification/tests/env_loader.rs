use zlnk::env_loader::{init_from, parse_usize, EnvError, EnvVars};

fn vars() -> EnvVars {
    EnvVars {
        redis_url: None,
        url_regex: None,
        short_length: None,
        short_alphabet: None,
        bad_request_message: None,
        mmdb_path: None,
        trust_proxy: false,
        disable_stats: false,
    }
}

#[test]
fn defaults_fill_unset_settings() {
    let env = init_from(vars()).unwrap();
    assert_eq!(env.redis_url(), "redis://localhost");
    assert_eq!(env.url_regex(), "^(https?://)?([\\da-z\\.-]+)\\.([a-z\\.]{2,6})([/\\w \\.-]*)*/?$");
    assert_eq!(env.short_length(), 5);
    assert_eq!(env.short_alphabet(), "hex");
    assert_eq!(env.bad_request_message(), "Invalid URL");
    assert_eq!(env.mmdb_path(), "./GeoLite2-Country.mmdb");
    assert!(!env.trust_proxy());
    assert!(!env.disable_stats());
}

#[test]
fn set_settings_are_kept() {
    let mut v = vars();
    v.redis_url = Some("redis://db:6380/2".to_string());
    v.url_regex = Some("^x$".to_string());
    v.short_length = Some("+12".to_string());
    v.short_alphabet = Some("alpha".to_string());
    v.bad_request_message = Some("nope".to_string());
    v.mmdb_path = Some("/data/c.mmdb".to_string());
    v.trust_proxy = true;
    v.disable_stats = true;
    let env = init_from(v).unwrap();
    assert_eq!(env.redis_url(), "redis://db:6380/2");
    assert_eq!(env.url_regex(), "^x$");
    assert_eq!(env.short_length(), 12);
    assert_eq!(env.short_alphabet(), "alpha");
    assert_eq!(env.bad_request_message(), "nope");
    assert_eq!(env.mmdb_path(), "/data/c.mmdb");
    assert!(env.trust_proxy());
    assert!(env.disable_stats());
}

#[test]
fn invalid_pattern_is_refused_first() {
    let mut v = vars();
    v.url_regex = Some("([a-z".to_string());
    v.short_length = Some("five".to_string());
    assert_eq!(init_from(v).err(), Some(EnvError::InvalidUrlRegex));
}

#[test]
fn invalid_short_length_is_refused() {
    for text in ["five", "", "-3", "0", "+", "99999999999999999999999", " 5"] {
        let mut v = vars();
        v.short_length = Some(text.to_string());
        assert_eq!(init_from(v).err(), Some(EnvError::InvalidShortLength), "{}", text);
    }
}

#[test]
fn parse_usize_reads_like_from_str() {
    for text in ["0", "5", "+7", "0042", "18446744073709551615", "", "+", "-1", "1_000", "12a", " 1", "18446744073709551616"] {
        assert_eq!(parse_usize(text), text.parse::<usize>().ok(), "{}", text);
    }
}
