//! The calls this library makes into std functions that vstd does not
//! specify, and into outside crates. Each item here is trusted: its
//! contract is believed, not proved.

use vstd::prelude::*;

verus! {

/// `String::push`: std documents that it appends the given `char` to the
/// end of the string. The contract claims exactly that.
#[verifier::external_body]
pub(crate) fn string_push(s: &mut String, c: char)
    ensures
        final(s)@ == old(s)@.push(c),
{
    s.push(c);
}

} // verus!

verus! {

/// Whether `regex::Regex::new` accepts `pattern`. Compilation depends on
/// the pattern alone (the size limits are the crate's fixed defaults).
pub uninterp spec fn regex_compiles(pattern: Seq<char>) -> bool;

/// What `regex::Regex::is_match` answers for the regex compiled from
/// `pattern` on the haystack `text`.
pub uninterp spec fn regex_matches(pattern: Seq<char>, text: Seq<char>) -> bool;

/// Compiles `pattern` with `regex::Regex::new` and, when that succeeds,
/// asks `regex::Regex::is_match` whether `text` matches. The contract
/// claims: the result is `Some` exactly when the pattern compiles, and
/// then holds the match answer; both are named, not described.
#[verifier::external_body]
pub(crate) fn regex_is_match(pattern: &str, text: &str) -> (r: Option<bool>)
    ensures
        r is Some <==> regex_compiles(pattern@),
        r matches Some(b) ==> b == regex_matches(pattern@, text@),
{
    match regex::Regex::new(pattern) {
        Ok(re) => Some(re.is_match(text)),
        Err(_) => None,
    }
}

} // verus!

verus! {

/// `rand::random::<u64>()`: a draw from the thread's random generator.
/// Nothing is claimed of the value: any `u64` may come back.
#[verifier::external_body]
pub(crate) fn random_u64() -> (r: u64) {
    rand::random::<u64>()
}

} // verus!

verus! {

/// Whether `url::Url::parse` accepts `text`.
pub uninterp spec fn url_parses(text: Seq<char>) -> bool;

/// What `url::Url::host_str` answers for the URL that `url::Url::parse`
/// reads from `text`.
pub uninterp spec fn url_host(text: Seq<char>) -> Option<Seq<char>>;

/// Parses `text` with `url::Url::parse` and, when that succeeds, asks the
/// URL for its host with `url::Url::host_str`. The contract claims: the
/// result is `Some` exactly when the text parses, and then holds the host
/// (or its absence); both are named, not described.
#[verifier::external_body]
pub(crate) fn url_host_of(text: &str) -> (r: Option<Option<String>>)
    ensures
        r is Some <==> url_parses(text@),
        r matches Some(h) ==> match h {
            Some(s) => url_host(text@) == Some(s@),
            None => url_host(text@) is None,
        },
{
    match url::Url::parse(text) {
        Ok(u) => match u.host_str() {
            Some(h) => Some(Some(h.to_string())),
            None => Some(None),
        },
        Err(_) => None,
    }
}

/// What `woothee::parser::Parser::parse` finds in a user-agent string:
/// `None` where it recognises nothing, else the browser name and the
/// operating system name of its result.
pub uninterp spec fn user_agent_parse(agent: Seq<char>) -> Option<(Seq<char>, Seq<char>)>;

/// Runs `woothee::parser::Parser::parse` on `agent` and keeps the `name`
/// and `os` fields of the result. The contract claims that the answer is
/// the named one, field for field; the parser holds no state, so the
/// answer depends on `agent` alone.
#[verifier::external_body]
pub(crate) fn parse_user_agent(agent: &str) -> (r: Option<(String, String)>)
    ensures
        match r {
            Some(p) => user_agent_parse(agent@) == Some((p.0@, p.1@)),
            None => user_agent_parse(agent@) is None,
        },
{
    match woothee::parser::Parser::new().parse(agent) {
        Some(found) => Some((found.name.to_string(), found.os.to_string())),
        None => None,
    }
}

} // verus!
