use std::collections::HashMap;

use zlnk::env_loader::{init_from, Env, EnvVars};
use zlnk::shortener::{accepts_url, alphabet_for, code_from_draws, random, reply_after_lookup};

fn vars() -> EnvVars {
    EnvVars {
        redis_url: None,
        url_regex: None,
        short_length: None,
        short_alphabet: None,
        bad_request_message: None,
        mmdb_path: None,
        trust_proxy: false,
        disable_stats: false,
    }
}

fn default_env() -> Env {
    init_from(vars()).unwrap()
}

/// Runs one shortening request against an in-memory store, making the
/// reads and writes that the library asks for.
fn short(store: &mut HashMap<String, String>, env: &Env, long_url: String) -> Option<String> {
    if !accepts_url(env, &long_url) {
        return None;
    }
    let existing = store.get(&long_url).cloned();
    let reply = reply_after_lookup(env, &long_url, existing);
    for (key, value) in reply.sets {
        store.insert(key, value);
    }
    Some(reply.short)
}

/// Runs one resolution request against an in-memory store.
fn long(store: &HashMap<String, String>, short_url: String) -> Option<String> {
    store.get(&short_url).cloned()
}

#[test]
fn shortener_test() {
    let env = &default_env();
    let mut store = HashMap::new();
    let long_url = "https://zlnk.de".to_string();
    let shorted = short(&mut store, env, long_url.clone()).unwrap();
    let longed = long(&store, shorted).unwrap();
    assert_eq!(longed, long_url);
}

#[test]
fn invalid_url_test() {
    let env = &default_env();
    let mut store = HashMap::new();
    let long_url = "data:text/plain,https://zlnk.de".to_string();
    let shorted = short(&mut store, env, long_url).is_none();
    assert_eq!(shorted, true);
}

#[test]
fn double_shortening_test() {
    let env = &default_env();
    let mut store = HashMap::new();
    let long_url = "https://zlnk.de".to_string();
    let shorted_one = short(&mut store, env, long_url.clone()).unwrap();
    let shorted_two = short(&mut store, env, long_url.clone()).unwrap();
    assert_eq!(shorted_one, shorted_two);
}

#[test]
fn refused_url_leaves_store_unchanged() {
    let env = &default_env();
    let mut store = HashMap::new();
    assert_eq!(short(&mut store, env, "not a url".to_string()), None);
    assert!(store.is_empty());
}

#[test]
fn new_short_code_pairs_both_ways() {
    let env = &default_env();
    let mut store = HashMap::new();
    let code = short(&mut store, env, "http://example.org/a".to_string()).unwrap();
    assert_eq!(code.chars().count(), 5);
    assert!(code.chars().all(|c| "0123456789abcdef".contains(c)));
    assert_eq!(store.get("http://example.org/a"), Some(&code));
    assert_eq!(store.get(&code).map(|s| s.as_str()), Some("http://example.org/a"));
    assert_eq!(store.len(), 2);
}

#[test]
fn existing_code_is_answered_without_writes() {
    let env = &default_env();
    let reply = reply_after_lookup(env, "https://zlnk.de", Some("abc12".to_string()));
    assert_eq!(reply.short, "abc12");
    assert!(reply.sets.is_empty());
}

#[test]
fn fresh_reply_writes_code_then_url() {
    let env = &default_env();
    let reply = reply_after_lookup(env, "https://zlnk.de", None);
    assert_eq!(
        reply.sets,
        vec![
            (reply.short.clone(), "https://zlnk.de".to_string()),
            ("https://zlnk.de".to_string(), reply.short.clone()),
        ]
    );
}

#[test]
fn default_pattern_accepts_and_refuses() {
    let env = &default_env();
    assert!(accepts_url(env, "https://zlnk.de"));
    assert!(accepts_url(env, "zlnk.de/path/to page"));
    assert!(!accepts_url(env, "data:text/plain,https://zlnk.de"));
    assert!(!accepts_url(env, "https://localhost"));
}

#[test]
fn alphabets_by_name() {
    assert_eq!(alphabet_for("hex").unwrap().len(), 16);
    assert_eq!(alphabet_for("decimal").unwrap(), vec!['0', '1', '2', '3', '4', '5', '6', '7', '8', '9']);
    assert_eq!(alphabet_for("alpha").unwrap().len(), 26);
    let an = alphabet_for("alpha-numeric").unwrap();
    assert_eq!(an.len(), 36);
    assert_eq!(an[26], '0');
    assert_eq!(alphabet_for("Hex"), None);
    assert_eq!(alphabet_for(""), None);
}

#[test]
fn code_from_draws_picks_by_remainder() {
    assert_eq!(code_from_draws(&vec![17, 3, 15, 16], "hex"), "13f0");
    assert_eq!(code_from_draws(&vec![25, 26, 35, 36], "alpha-numeric"), "z09a");
    assert_eq!(code_from_draws(&vec![123], "decimal"), "3");
    assert_eq!(code_from_draws(&vec![], "alpha"), "");
}

#[test]
fn random_code_has_length_and_alphabet() {
    let code = random(12, "decimal".to_string());
    assert_eq!(code.chars().count(), 12);
    assert!(code.chars().all(|c| c.is_ascii_digit()));
    let code = random(0, "alpha".to_string());
    assert_eq!(code, "");
}

#[test]
fn several_urls_each_resolve() {
    let env = &default_env();
    let mut store = HashMap::new();
    let urls = ["https://zlnk.de", "http://example.org/x", "www.rust-lang.org/learn"];
    let codes: Vec<String> = urls.iter().map(|u| short(&mut store, env, u.to_string()).unwrap()).collect();
    for (url, code) in urls.iter().zip(codes.iter()) {
        assert_eq!(long(&store, code.clone()).as_deref(), Some(*url));
    }
}

#[test]
fn other_alphabet_and_length() {
    let mut v = vars();
    v.short_alphabet = Some("alpha".to_string());
    v.short_length = Some("9".to_string());
    let env = &init_from(v).unwrap();
    let mut store = HashMap::new();
    let code = short(&mut store, env, "https://zlnk.de".to_string()).unwrap();
    assert_eq!(code.len(), 9);
    assert!(code.chars().all(|c| c.is_ascii_lowercase()));
}
