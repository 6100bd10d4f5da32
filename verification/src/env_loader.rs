//! The service configuration: each setting with its default, and the
//! checks made on them when the service starts.

use vstd::prelude::*;
use crate::bindings::{regex_compiles, regex_is_match};

verus! {

/// Default store address.
pub const DEFAULT_REDIS_URL: &'static str = "redis://localhost";
/// Default pattern that a URL must match to be shortened.
pub const DEFAULT_URL_REGEX: &'static str = "^(https?://)?([\\da-z\\.-]+)\\.([a-z\\.]{2,6})([/\\w \\.-]*)*/?$";
/// Default length of a short code, as the text of a number.
pub const DEFAULT_SHORT_LENGTH: &'static str = "5";
/// Default alphabet name for short codes.
pub const DEFAULT_SHORT_ALPHABET: &'static str = "hex";
/// Default answer to a URL that the pattern refuses.
pub const DEFAULT_BAD_REQUEST_MESSAGE: &'static str = "Invalid URL";
/// Default path of the country database.
pub const DEFAULT_MMDB_PATH: &'static str = "./GeoLite2-Country.mmdb";

/// Whether `c` is an ASCII decimal digit.
pub open spec fn is_digit(c: char) -> bool {
    '0' <= c && c <= '9'
}

/// The number that the decimal digits `ds` write (most significant first).
pub open spec fn decimal_value(ds: Seq<char>) -> nat
    decreases ds.len(),
{
    if ds.len() == 0 {
        0
    } else {
        decimal_value(ds.drop_last()) * 10 + (ds.last() as nat - '0' as nat) as nat
    }
}

/// The digits of an unsigned number's text: a single leading `+` is dropped.
pub open spec fn unsigned_digits(s: Seq<char>) -> Seq<char> {
    if s.len() > 0 && s[0] == '+' {
        s.drop_first()
    } else {
        s
    }
}

/// Whether `s` is the text of a `usize`, as `usize::from_str` reads it: an
/// optional `+`, then at least one ASCII digit and nothing else, with a
/// value that fits.
pub open spec fn is_usize_text(s: Seq<char>) -> bool {
    let ds = unsigned_digits(s);
    &&& ds.len() > 0
    &&& forall|i: int| 0 <= i < ds.len() ==> is_digit(#[trigger] ds[i])
    &&& decimal_value(ds) <= usize::MAX
}

/// The value written by a leading run of digits never exceeds the value of
/// the whole run.
proof fn lemma_decimal_prefix_le(ds: Seq<char>, k: int)
    requires
        0 <= k <= ds.len(),
        forall|i: int| 0 <= i < ds.len() ==> is_digit(#[trigger] ds[i]),
    ensures
        decimal_value(ds.take(k)) <= decimal_value(ds),
    decreases ds.len() - k,
{
    if k < ds.len() {
        lemma_decimal_prefix_le(ds, k + 1);
        assert(ds.take(k + 1).drop_last() =~= ds.take(k));
        assert(is_digit(ds[k]));
    } else {
        assert(ds.take(k) =~= ds);
    }
}

/// Reads a `usize` from its decimal text, as `usize::from_str` does.
pub fn parse_usize(s: &str) -> (r: Option<usize>)
    ensures
        r is Some <==> is_usize_text(s@),
        r matches Some(n) ==> n == decimal_value(unsigned_digits(s@)),
{
    let cs = crate::text::chars_of(s);
    let ghost ds = unsigned_digits(s@);
    let start: usize = if cs.len() > 0 && cs[0] == '+' { 1 } else { 0 };
    assert(ds =~= s@.skip(start as int));
    if start >= cs.len() {
        return None;
    }
    let mut acc: usize = 0;
    let mut i: usize = start;
    while i < cs.len()
        invariant
            cs@ == s@,
            ds == s@.skip(start as int),
            ds == unsigned_digits(s@),
            start <= i <= cs.len(),
            forall|j: int| 0 <= j < i - start ==> is_digit(#[trigger] ds[j]),
            acc == decimal_value(ds.take(i - start)),
        decreases cs.len() - i,
    {
        let c = cs[i];
        if !('0' <= c && c <= '9') {
            assert(!is_digit(ds[i - start]));
            return None;
        }
        let d = (c as u32 - '0' as u32) as usize;
        assert(ds.take(i - start + 1).drop_last() =~= ds.take(i - start));
        assert(ds.take(i - start + 1).last() == c);
        match acc.checked_mul(10) {
            None => {
                proof {
                    if forall|j: int| 0 <= j < ds.len() ==> is_digit(#[trigger] ds[j]) {
                        lemma_decimal_prefix_le(ds, i - start + 1);
                    }
                }
                return None;
            },
            Some(t) => match t.checked_add(d) {
                None => {
                    proof {
                        if forall|j: int| 0 <= j < ds.len() ==> is_digit(#[trigger] ds[j]) {
                            lemma_decimal_prefix_le(ds, i - start + 1);
                        }
                    }
                    return None;
                },
                Some(v) => {
                    acc = v;
                },
            },
        }
        i = i + 1;
    }
    assert(ds.take(i - start) =~= ds);
    Some(acc)
}

/// The raw settings as the environment gives them: `None` where a
/// variable is not set.
pub struct EnvVars {
    pub redis_url: Option<String>,
    pub url_regex: Option<String>,
    pub short_length: Option<String>,
    pub short_alphabet: Option<String>,
    pub bad_request_message: Option<String>,
    pub mmdb_path: Option<String>,
    pub trust_proxy: bool,
    pub disable_stats: bool,
}

/// Why the settings were refused.
#[derive(Debug, Clone, Copy, PartialEq, Eq, Structural)]
pub enum EnvError {
    /// The URL pattern does not compile.
    InvalidUrlRegex,
    /// The short length is not the text of a positive `usize`.
    InvalidShortLength,
}

/// The checked configuration of the service.
pub struct Env {
    redis_url: String,
    url_regex: String,
    short_length: usize,
    short_alphabet: String,
    bad_request_message: String,
    mmdb_path: String,
    trust_proxy: bool,
    disable_stats: bool,
}

/// The settings of an [`Env`] as plain values.
pub struct EnvView {
    pub redis_url: Seq<char>,
    pub url_regex: Seq<char>,
    pub short_length: nat,
    pub short_alphabet: Seq<char>,
    pub bad_request_message: Seq<char>,
    pub mmdb_path: Seq<char>,
    pub trust_proxy: bool,
    pub disable_stats: bool,
}

impl View for Env {
    type V = EnvView;

    closed spec fn view(&self) -> EnvView {
        EnvView {
            redis_url: self.redis_url@,
            url_regex: self.url_regex@,
            short_length: self.short_length as nat,
            short_alphabet: self.short_alphabet@,
            bad_request_message: self.bad_request_message@,
            mmdb_path: self.mmdb_path@,
            trust_proxy: self.trust_proxy,
            disable_stats: self.disable_stats,
        }
    }
}

/// A setting's value, or `default` where it is not set.
pub open spec fn or_default(v: Option<String>, default: Seq<char>) -> Seq<char> {
    match v {
        Some(s) => s@,
        None => default,
    }
}

/// Whether `text` is accepted as a short length: a `usize` above zero.
pub open spec fn valid_short_length(text: Seq<char>) -> bool {
    is_usize_text(text) && decimal_value(unsigned_digits(text)) > 0
}

impl Env {
    /// Every configuration holds a pattern that compiles and a positive
    /// short length.
    #[verifier::type_invariant]
    spec fn well_formed(self) -> bool {
        &&& regex_compiles(self.url_regex@)
        &&& self.short_length > 0
    }

    /// The store address.
    pub fn redis_url(&self) -> (r: &String)
        ensures
            r@ == self@.redis_url,
    {
        &self.redis_url
    }

    /// The pattern that URLs must match; it always compiles.
    pub fn url_regex(&self) -> (r: &String)
        ensures
            r@ == self@.url_regex,
            regex_compiles(r@),
    {
        proof {
            use_type_invariant(self);
        }
        &self.url_regex
    }

    /// The length of a short code; always positive.
    pub fn short_length(&self) -> (r: usize)
        ensures
            r == self@.short_length,
            r > 0,
    {
        proof {
            use_type_invariant(self);
        }
        self.short_length
    }

    /// The name of the alphabet of short codes.
    pub fn short_alphabet(&self) -> (r: &String)
        ensures
            r@ == self@.short_alphabet,
    {
        &self.short_alphabet
    }

    /// The answer to a refused URL.
    pub fn bad_request_message(&self) -> (r: &String)
        ensures
            r@ == self@.bad_request_message,
    {
        &self.bad_request_message
    }

    /// The path of the country database.
    pub fn mmdb_path(&self) -> (r: &String)
        ensures
            r@ == self@.mmdb_path,
    {
        &self.mmdb_path
    }

    /// Whether the client address is taken from the forwarding header.
    pub fn trust_proxy(&self) -> (r: bool)
        ensures
            r == self@.trust_proxy,
    {
        self.trust_proxy
    }

    /// Whether click statistics are left uncollected.
    pub fn disable_stats(&self) -> (r: bool)
        ensures
            r == self@.disable_stats,
    {
        self.disable_stats
    }
}

fn setting_or(v: Option<String>, default: &str) -> (r: String)
    ensures
        r@ == or_default(v, default@),
{
    match v {
        Some(s) => s,
        None => default.to_owned(),
    }
}

/// Builds the configuration from the raw settings, filling in the
/// defaults. The pattern is checked first, then the short length.
pub fn init_from(vars: EnvVars) -> (r: Result<Env, EnvError>)
    ensures
        ({
            let pattern = or_default(vars.url_regex, DEFAULT_URL_REGEX@);
            let length_text = or_default(vars.short_length, DEFAULT_SHORT_LENGTH@);
            match r {
                Err(EnvError::InvalidUrlRegex) => !regex_compiles(pattern),
                Err(EnvError::InvalidShortLength) => regex_compiles(pattern)
                    && !valid_short_length(length_text),
                Ok(env) => {
                    &&& regex_compiles(pattern)
                    &&& valid_short_length(length_text)
                    &&& env@ == EnvView {
                        redis_url: or_default(vars.redis_url, DEFAULT_REDIS_URL@),
                        url_regex: pattern,
                        short_length: decimal_value(unsigned_digits(length_text)),
                        short_alphabet: or_default(vars.short_alphabet, DEFAULT_SHORT_ALPHABET@),
                        bad_request_message: or_default(
                            vars.bad_request_message,
                            DEFAULT_BAD_REQUEST_MESSAGE@,
                        ),
                        mmdb_path: or_default(vars.mmdb_path, DEFAULT_MMDB_PATH@),
                        trust_proxy: vars.trust_proxy,
                        disable_stats: vars.disable_stats,
                    }
                },
            }
        }),
{
    let redis_url = setting_or(vars.redis_url, DEFAULT_REDIS_URL);
    let url_regex = setting_or(vars.url_regex, DEFAULT_URL_REGEX);
    // Trying a match is how the compiler of the pattern is asked whether it
    // accepts it; the answer on the empty text is not used.
    if regex_is_match(url_regex.as_str(), "").is_none() {
        return Err(EnvError::InvalidUrlRegex);
    }
    let length_text = setting_or(vars.short_length, DEFAULT_SHORT_LENGTH);
    let short_length = match parse_usize(length_text.as_str()) {
        Some(n) if n > 0 => n,
        _ => {
            return Err(EnvError::InvalidShortLength);
        },
    };
    let short_alphabet = setting_or(vars.short_alphabet, DEFAULT_SHORT_ALPHABET);
    let bad_request_message = setting_or(vars.bad_request_message, DEFAULT_BAD_REQUEST_MESSAGE);
    let mmdb_path = setting_or(vars.mmdb_path, DEFAULT_MMDB_PATH);
    Ok(Env {
        redis_url,
        url_regex,
        short_length,
        short_alphabet,
        bad_request_message,
        mmdb_path,
        trust_proxy: vars.trust_proxy,
        disable_stats: vars.disable_stats,
    })
}

} // verus!
