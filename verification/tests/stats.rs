use std::collections::HashMap;

use zlnk::geo_locate_ip::{country_from_lookup, GeoLookup};
use zlnk::stats::{
    client_ip, field_name, hash_write_for, is_stat_field, parse_field, short_key, stats_key,
    summarize, Counts, HashWrite, StatField, StatKind, Stats,
};

fn strings(v: &[&str]) -> Vec<String> {
    v.iter().map(|s| s.to_string()).collect()
}

const FIREFOX: &str = "Mozilla/5.0 (Windows NT 10.0; Win64; x64; rv:109.0) Gecko/20100101 Firefox/115.0";

#[test]
fn disabled_stats_are_unknown() {
    let s = Stats::from_request_parts(true, &strings(&["https://a.example/x"]), &strings(&[FIREFOX]), Some("DE".to_string()));
    assert_eq!((s.refer.as_str(), s.browser.as_str(), s.os.as_str(), s.country.as_str()), ("Unknown", "Unknown", "Unknown", "Unknown"));
}

#[test]
fn single_headers_are_read() {
    let s = Stats::from_request_parts(false, &strings(&["https://news.example.com/item?id=1"]), &strings(&[FIREFOX]), Some("DE".to_string()));
    assert_eq!(s.refer, "news.example.com");
    assert_eq!(s.browser, "Firefox");
    assert_eq!(s.os, "Windows 10");
    assert_eq!(s.country, "DE");
}

#[test]
fn missing_or_repeated_headers_are_unknown() {
    let s = Stats::from_request_parts(false, &strings(&[]), &strings(&[FIREFOX, FIREFOX]), None);
    assert_eq!((s.refer.as_str(), s.browser.as_str(), s.os.as_str(), s.country.as_str()), ("Unknown", "Unknown", "Unknown", "Unknown"));
}

#[test]
fn unreadable_referrer_is_refused() {
    assert!(Stats::try_from_request_parts(false, &strings(&["not a url"]), &strings(&[]), None).is_none());
    assert!(Stats::try_from_request_parts(false, &strings(&["mailto:a@b.c"]), &strings(&[]), None).is_none());
    assert!(Stats::try_from_request_parts(true, &strings(&["not a url"]), &strings(&[]), None).is_some());
    let s = Stats::try_from_request_parts(false, &strings(&["http://h.example/"]), &strings(&[""]), None).unwrap();
    assert_eq!(s.refer, "h.example");
    assert_eq!(s.browser, "UNKNOWN");
}

#[test]
fn client_address_choice() {
    assert_eq!(client_ip(true, &strings(&["1.1.1.1", "2.2.2.2"]), None), "2.2.2.2");
    assert_eq!(client_ip(false, &strings(&["1.1.1.1"]), Some("9.9.9.9".to_string())), "9.9.9.9");
}

#[test]
fn keys_and_fields() {
    assert_eq!(stats_key("ab12c"), "stats_ab12c");
    assert_eq!(short_key("ab12c"), "short_ab12c");
    assert_eq!(field_name(StatKind::Os, "Linux"), "os_Linux");
    let s = Stats { refer: "r.example".into(), browser: "Chrome".into(), os: "Mac OSX".into(), country: "FR".into() };
    assert_eq!(s.fields(), strings(&["clicks", "refer_r.example", "browser_Chrome", "os_Mac OSX", "country_FR"]));
}

#[test]
fn writes_follow_existence() {
    assert_eq!(hash_write_for(true), HashWrite::Increment);
    assert_eq!(hash_write_for(false), HashWrite::SetOne);
    let s = Stats { refer: "a".into(), browser: "b".into(), os: "c".into(), country: "d".into() };
    let ws = s.save_writes(&vec![true, false, true, false, false]);
    assert_eq!(ws[0], ("clicks".to_string(), HashWrite::Increment));
    assert_eq!(ws[1], ("refer_a".to_string(), HashWrite::SetOne));
    assert_eq!(ws[2], ("browser_b".to_string(), HashWrite::Increment));
    assert_eq!(ws[4], ("country_d".to_string(), HashWrite::SetOne));
}

#[test]
fn field_names_read_back() {
    assert!(matches!(parse_field("clicks"), Some(StatField::Clicks)));
    match parse_field("country_DE") {
        Some(StatField::Named(StatKind::Country, n)) => assert_eq!(n, "DE"),
        _ => panic!("country field not read"),
    }
    match parse_field("refer_a_b") {
        Some(StatField::Named(StatKind::Refer, n)) => assert_eq!(n, "a"),
        _ => panic!("refer field not read"),
    }
    match parse_field("os_") {
        Some(StatField::Named(StatKind::Os, n)) => assert_eq!(n, ""),
        _ => panic!("empty name not read"),
    }
    assert!(parse_field("clickz").is_none());
    assert!(parse_field("city_Berlin").is_none());
    assert!(!is_stat_field("browser"));
    assert!(is_stat_field("browser_"));
}

#[test]
fn summary_counts_by_kind() {
    let entries = vec![
        ("clicks".to_string(), 3u64),
        ("refer_x.example".to_string(), 2),
        ("browser_Chrome".to_string(), 1),
        ("browser_Firefox".to_string(), 2),
        ("os_Linux".to_string(), 3),
        ("country_DE".to_string(), 3),
        ("browser_Chrome_beta".to_string(), 7),
    ];
    let s = summarize(&entries);
    assert_eq!(s.clicks, 3);
    assert_eq!(s.refers.entries, vec![("x.example".to_string(), 2)]);
    assert_eq!(s.browsers.entries, vec![("Chrome".to_string(), 1), ("Firefox".to_string(), 2), ("Chrome".to_string(), 7)]);
    assert_eq!(s.oss.entries, vec![("Linux".to_string(), 3)]);
    assert_eq!(s.countries.entries, vec![("DE".to_string(), 3)]);
    assert_eq!(summarize(&vec![]).clicks, 0);
}

#[test]
fn counts_record() {
    let mut c = Counts::new();
    c.record("a".to_string(), 1);
    c.record("a".to_string(), 4);
    assert_eq!(c.entries.last(), Some(&("a".to_string(), 4)));
}

#[test]
fn country_from_lookup_outcomes() {
    assert_eq!(country_from_lookup(GeoLookup::Found(Some("SE".to_string()))), Some("SE".to_string()));
    assert_eq!(country_from_lookup(GeoLookup::NotFound), None);
    assert_eq!(country_from_lookup(GeoLookup::Failed), None);
}

#[test]
fn first_click_reads_back_as_ones() {
    let s = Stats { refer: "r.example".into(), browser: "Chrome".into(), os: "Linux".into(), country: "NL".into() };
    let mut hash: HashMap<String, u64> = HashMap::new();
    let exists: Vec<bool> = s.fields().iter().map(|f| hash.contains_key(f)).collect();
    for (field, write) in s.save_writes(&exists) {
        match write {
            HashWrite::Increment => *hash.get_mut(&field).unwrap() += 1,
            HashWrite::SetOne => {
                hash.insert(field, 1);
            }
        }
    }
    let mut entries: Vec<(String, u64)> = hash.into_iter().collect();
    entries.reverse();
    let summary = summarize(&entries);
    assert_eq!(summary.clicks, 1);
    assert_eq!(summary.refers.entries, vec![("r.example".to_string(), 1)]);
    assert_eq!(summary.browsers.entries, vec![("Chrome".to_string(), 1)]);
    assert_eq!(summary.oss.entries, vec![("Linux".to_string(), 1)]);
    assert_eq!(summary.countries.entries, vec![("NL".to_string(), 1)]);
}

#[test]
fn second_click_increments_every_counter() {
    let s = Stats { refer: "a".into(), browser: "b".into(), os: "c".into(), country: "d".into() };
    let mut hash: HashMap<String, u64> = HashMap::new();
    for _ in 0..2 {
        let exists: Vec<bool> = s.fields().iter().map(|f| hash.contains_key(f)).collect();
        for (field, write) in s.save_writes(&exists) {
            match write {
                HashWrite::Increment => *hash.get_mut(&field).unwrap() += 1,
                HashWrite::SetOne => {
                    hash.insert(field, 1);
                }
            }
        }
    }
    assert_eq!(hash.len(), 5);
    assert!(hash.values().all(|v| *v == 2));
}

#[test]
fn several_clicks_read_back_to_their_number() {
    let clicks = vec![
        Stats { refer: "a.example".into(), browser: "Chrome".into(), os: "Linux".into(), country: "DE".into() },
        Stats { refer: "b.example".into(), browser: "Chrome".into(), os: "Windows 10".into(), country: "DE".into() },
        Stats { refer: "a.example".into(), browser: "Firefox".into(), os: "Linux".into(), country: "FR".into() },
        Stats { refer: "Unknown".into(), browser: "Safari".into(), os: "Mac OSX".into(), country: "Unknown".into() },
    ];
    let mut hash: HashMap<String, u64> = HashMap::new();
    for s in &clicks {
        let exists: Vec<bool> = s.fields().iter().map(|f| hash.contains_key(f)).collect();
        for (field, write) in s.save_writes(&exists) {
            match write {
                HashWrite::Increment => *hash.get_mut(&field).unwrap() += 1,
                HashWrite::SetOne => {
                    hash.insert(field, 1);
                }
            }
        }
    }
    let entries: Vec<(String, u64)> = hash.into_iter().collect();
    let summary = summarize(&entries);
    let total = |c: &Counts| -> u64 {
        let mut m = HashMap::new();
        for (k, v) in &c.entries {
            m.insert(k.clone(), *v);
        }
        m.values().sum()
    };
    assert_eq!(summary.clicks, 4);
    assert_eq!(total(&summary.refers), 4);
    assert_eq!(total(&summary.browsers), 4);
    assert_eq!(total(&summary.oss), 4);
    assert_eq!(total(&summary.countries), 4);
    assert!(summary.refers.entries.contains(&("a.example".to_string(), 2)));
    assert!(summary.countries.entries.contains(&("DE".to_string(), 2)));
}
