//! Click statistics: what a request reveals about its origin, how a click
//! is counted in the store, and how the counters are read back.
//!
//! The counters of a short code live in one hash of the key-value store,
//! modelled as a `Map` from field name to count.

use vstd::prelude::*;
use crate::bindings::{parse_user_agent, url_host, url_host_of, url_parses, user_agent_parse};
use crate::text::{chars_of, joined, same_text, string_of};

verus! {

/// The views of a sequence of strings.
pub open spec fn texts(v: Seq<String>) -> Seq<Seq<char>> {
    v.map_values(|s: String| s@)
}

/// The text used where a request reveals nothing.
pub open spec fn unknown() -> Seq<char> {
    "Unknown"@
}

/// Whether the request data can be read as the service reads it: a single
/// referrer must parse as a URL with a host, and a single user agent must
/// be recognised.
pub open spec fn request_parts_readable(refers: Seq<Seq<char>>, agents: Seq<Seq<char>>) -> bool {
    &&& refers.len() == 1 ==> url_parses(refers[0]) && url_host(refers[0]) is Some
    &&& agents.len() == 1 ==> user_agent_parse(agents[0]) is Some
}

/// The referring host: that of the single referrer, else unknown.
pub open spec fn refer_of(refers: Seq<Seq<char>>) -> Seq<char> {
    if refers.len() == 1 {
        url_host(refers[0]).unwrap()
    } else {
        unknown()
    }
}

/// The browser: that of the single user agent, else unknown.
pub open spec fn browser_of(agents: Seq<Seq<char>>) -> Seq<char> {
    if agents.len() == 1 {
        user_agent_parse(agents[0]).unwrap().0
    } else {
        unknown()
    }
}

/// The operating system: that of the single user agent, else unknown.
pub open spec fn os_of(agents: Seq<Seq<char>>) -> Seq<char> {
    if agents.len() == 1 {
        user_agent_parse(agents[0]).unwrap().1
    } else {
        unknown()
    }
}

/// The country, when one was found, else unknown.
pub open spec fn country_of(country: Option<Seq<char>>) -> Seq<char> {
    match country {
        Some(c) => c,
        None => unknown(),
    }
}

/// What one click records about where it came from.
pub struct Stats {
    pub refer: String,
    pub browser: String,
    pub os: String,
    pub country: String,
}

fn unknown_text() -> (r: String)
    ensures
        r@ == unknown(),
{
    "Unknown".to_owned()
}

/// The address of the client: with `trust_proxy`, the last value of the
/// forwarding header; otherwise the address of the peer.
pub fn client_ip(trust_proxy: bool, forwarded_for: &Vec<String>, remote: Option<String>) -> (r:
    String)
    requires
        trust_proxy ==> forwarded_for.len() > 0,
        !trust_proxy ==> remote is Some,
    ensures
        trust_proxy ==> r@ == forwarded_for@.last()@,
        !trust_proxy ==> r@ == remote.unwrap()@,
{
    if trust_proxy {
        forwarded_for[forwarded_for.len() - 1].clone()
    } else {
        match remote {
            Some(ip) => ip,
            None => String::new(),
        }
    }
}

impl Stats {
    /// The statistics of one request: all unknown when statistics are
    /// disabled; otherwise the host of a single referrer, the browser and
    /// operating system of a single user agent, and the country found.
    pub fn from_request_parts(
        disable_stats: bool,
        refers: &Vec<String>,
        user_agents: &Vec<String>,
        country: Option<String>,
    ) -> (r: Stats)
        requires
            !disable_stats ==> request_parts_readable(texts(refers@), texts(user_agents@)),
        ensures
            disable_stats ==> r.refer@ == unknown() && r.browser@ == unknown() && r.os@
                == unknown() && r.country@ == unknown(),
            !disable_stats ==> {
                &&& r.refer@ == refer_of(texts(refers@))
                &&& r.browser@ == browser_of(texts(user_agents@))
                &&& r.os@ == os_of(texts(user_agents@))
                &&& r.country@ == country_of(match country {
                    Some(c) => Some(c@),
                    None => None,
                })
            },
    {
        if disable_stats {
            return Stats {
                refer: unknown_text(),
                browser: unknown_text(),
                os: unknown_text(),
                country: unknown_text(),
            };
        }
        let refer = if refers.len() == 1 {
            assert(texts(refers@)[0] == refers@[0]@);
            match url_host_of(refers[0].as_str()) {
                Some(Some(h)) => h,
                _ => unknown_text(),
            }
        } else {
            unknown_text()
        };
        let (browser, os) = if user_agents.len() == 1 {
            assert(texts(user_agents@)[0] == user_agents@[0]@);
            match parse_user_agent(user_agents[0].as_str()) {
                Some(found) => found,
                None => (unknown_text(), unknown_text()),
            }
        } else {
            (unknown_text(), unknown_text())
        };
        let country = match country {
            Some(c) => c,
            None => unknown_text(),
        };
        Stats { refer, browser, os, country }
    }

    /// As [`Stats::from_request_parts`], but answers `None` where the
    /// request data cannot be read: a single referrer that is not a URL with
    /// a host, or a single user agent that is not recognised.
    pub fn try_from_request_parts(
        disable_stats: bool,
        refers: &Vec<String>,
        user_agents: &Vec<String>,
        country: Option<String>,
    ) -> (r: Option<Stats>)
        ensures
            r is None <==> !disable_stats && !request_parts_readable(
                texts(refers@),
                texts(user_agents@),
            ),
            r matches Some(s) ==> {
                &&& disable_stats ==> s.refer@ == unknown() && s.browser@ == unknown() && s.os@
                    == unknown() && s.country@ == unknown()
                &&& !disable_stats ==> {
                    &&& s.refer@ == refer_of(texts(refers@))
                    &&& s.browser@ == browser_of(texts(user_agents@))
                    &&& s.os@ == os_of(texts(user_agents@))
                    &&& s.country@ == country_of(match country {
                        Some(c) => Some(c@),
                        None => None,
                    })
                }
            },
    {
        if !disable_stats {
            if refers.len() == 1 {
                assert(texts(refers@)[0] == refers@[0]@);
                match url_host_of(refers[0].as_str()) {
                    Some(Some(_)) => {},
                    _ => {
                        return None;
                    },
                }
            }
            if user_agents.len() == 1 {
                assert(texts(user_agents@)[0] == user_agents@[0]@);
                if parse_user_agent(user_agents[0].as_str()).is_none() {
                    return None;
                }
            }
        }
        Some(Stats::from_request_parts(disable_stats, refers, user_agents, country))
    }
}

} // verus!

verus! {

/// The counters of one short code: each field with its count.
pub type Counters = Map<Seq<char>, int>;

/// What one field currently counts: its value, or zero when absent.
pub open spec fn count_of(h: Counters, field: Seq<char>) -> int {
    if h.contains_key(field) {
        h[field]
    } else {
        0
    }
}

/// The five counters that one click touches: the total, then one each for
/// the referrer, the browser, the operating system and the country.
pub open spec fn fields_of(refer: Seq<char>, browser: Seq<char>, os: Seq<char>, country: Seq<char>) -> Seq<
    Seq<char>,
> {
    seq![
        "clicks"@,
        "refer_"@ + refer,
        "browser_"@ + browser,
        "os_"@ + os,
        "country_"@ + country,
    ]
}

/// How one counter is written: incremented where it exists, set to one
/// where it does not.
#[derive(Debug, Clone, Copy, PartialEq, Eq, Structural)]
pub enum HashWrite {
    Increment,
    SetOne,
}

/// The write for a counter that does (`exists`) or does not exist.
pub open spec fn write_for(exists: bool) -> HashWrite {
    if exists {
        HashWrite::Increment
    } else {
        HashWrite::SetOne
    }
}

/// The counters after one write.
pub open spec fn apply_hash_write(h: Counters, field: Seq<char>, w: HashWrite) -> Counters {
    match w {
        HashWrite::Increment => h.insert(field, count_of(h, field) + 1),
        HashWrite::SetOne => h.insert(field, 1),
    }
}

/// The counters after the writes `ws`, made in order.
pub open spec fn apply_hash_writes(h: Counters, ws: Seq<(Seq<char>, HashWrite)>) -> Counters
    decreases ws.len(),
{
    if ws.len() == 0 {
        h
    } else {
        let prev = apply_hash_writes(h, ws.drop_last());
        apply_hash_write(prev, ws.last().0, ws.last().1)
    }
}

/// The key of the hash that holds the counters of `short`.
pub fn stats_key(short: &str) -> (r: String)
    ensures
        r@ == "stats_"@ + short@,
{
    joined("stats_", short)
}

/// The key whose presence marks `short` as a known code.
pub fn short_key(short: &str) -> (r: String)
    ensures
        r@ == "short_"@ + short@,
{
    joined("short_", short)
}

/// The write for a counter, given whether it exists.
pub fn hash_write_for(exists: bool) -> (r: HashWrite)
    ensures
        r == write_for(exists),
{
    if exists {
        HashWrite::Increment
    } else {
        HashWrite::SetOne
    }
}

impl Stats {
    /// The counters that a click with these statistics touches.
    pub open spec fn fields_view(&self) -> Seq<Seq<char>> {
        fields_of(self.refer@, self.browser@, self.os@, self.country@)
    }

    /// The names of the counters that a click with these statistics
    /// touches, in the order in which they are written.
    pub fn fields(&self) -> (r: Vec<String>)
        ensures
            texts(r@) == self.fields_view(),
    {
        let mut r: Vec<String> = Vec::new();
        r.push("clicks".to_owned());
        r.push(joined("refer_", self.refer.as_str()));
        r.push(joined("browser_", self.browser.as_str()));
        r.push(joined("os_", self.os.as_str()));
        r.push(joined("country_", self.country.as_str()));
        assert(texts(r@) =~= self.fields_view());
        r
    }

    /// The writes that count one click, given for each counter of
    /// [`Stats::fields`] whether it exists.
    pub fn save_writes(&self, exists: &Vec<bool>) -> (r: Vec<(String, HashWrite)>)
        requires
            exists.len() == 5,
        ensures
            r.len() == 5,
            forall|i: int|
                0 <= i < 5 ==> (#[trigger] r@[i]).0@ == self.fields_view()[i] && r@[i].1
                    == write_for(exists@[i]),
    {
        let fields = self.fields();
        assert(texts(fields@).len() == fields@.len());
        let mut r: Vec<(String, HashWrite)> = Vec::new();
        let mut i: usize = 0;
        while i < 5
            invariant
                i <= 5,
                fields.len() == 5,
                exists.len() == 5,
                texts(fields@) == self.fields_view(),
                r.len() == i,
                forall|j: int|
                    0 <= j < i ==> (#[trigger] r@[j]).0@ == self.fields_view()[j] && r@[j].1
                        == write_for(exists@[j]),
            decreases 5 - i,
        {
            assert(texts(fields@)[i as int] == fields@[i as int]@);
            r.push((fields[i].clone(), hash_write_for(exists[i])));
            i = i + 1;
        }
        r
    }
}

/// The five counters of a click are distinct from one another.
pub proof fn lemma_fields_distinct(refer: Seq<char>, browser: Seq<char>, os: Seq<char>, country: Seq<char>)
    ensures
        forall|i: int, j: int|
            0 <= i < 5 && 0 <= j < 5 && i != j ==> #[trigger] fields_of(refer, browser, os, country)[i]
                != #[trigger] fields_of(refer, browser, os, country)[j],
{
    reveal_strlit("clicks");
    reveal_strlit("refer_");
    reveal_strlit("browser_");
    reveal_strlit("os_");
    reveal_strlit("country_");
    let fs = fields_of(refer, browser, os, country);
    assert(fs[0][1] == 'l');
    assert(fs[1][0] == 'r');
    assert(fs[2][0] == 'b');
    assert(fs[3][0] == 'o');
    assert(fs[4][0] == 'c');
    assert(fs[4][1] == 'o');
}

/// Writes chosen from whether each counter existed, made in order, raise
/// each of the first `n` counters by one and leave every other counter as
/// it was.
proof fn lemma_writes_prefix(h: Counters, fs: Seq<Seq<char>>, ws: Seq<(Seq<char>, HashWrite)>, n: int)
    requires
        0 <= n <= ws.len(),
        ws.len() == fs.len(),
        forall|i: int, j: int| 0 <= i < fs.len() && 0 <= j < fs.len() && i != j ==> fs[i] != fs[j],
        forall|i: int|
            0 <= i < ws.len() ==> (#[trigger] ws[i]).0 == fs[i] && ws[i].1 == write_for(
                h.contains_key(fs[i]),
            ),
    ensures
        ({
            let after = apply_hash_writes(h, ws.take(n));
            &&& forall|i: int|
                0 <= i < n ==> after.contains_key(#[trigger] fs[i]) && after[fs[i]] == count_of(
                    h,
                    fs[i],
                ) + 1
            &&& forall|k: Seq<char>|
                !fs.take(n).contains(k) ==> (#[trigger] after.contains_key(k) == h.contains_key(k)
                    && (h.contains_key(k) ==> after[k] == h[k]))
        }),
    decreases n,
{
    if n > 0 {
        lemma_writes_prefix(h, fs, ws, n - 1);
        assert(ws.take(n).drop_last() =~= ws.take(n - 1));
        let prev = apply_hash_writes(h, ws.take(n - 1));
        let after = apply_hash_writes(h, ws.take(n));
        let f = fs[n - 1];
        assert(ws.take(n).last() == ws[n - 1]);
        if fs.take(n - 1).contains(f) {
            let i = choose|i: int| 0 <= i < n - 1 && #[trigger] fs.take(n - 1)[i] == f;
            assert(fs[i] == f);
        }
        assert(prev.contains_key(f) == h.contains_key(f));
        assert forall|k: Seq<char>| !fs.take(n).contains(k) implies (#[trigger] after.contains_key(k)
            == h.contains_key(k) && (h.contains_key(k) ==> after[k] == h[k])) by {
            assert(k != f) by {
                assert(fs.take(n)[n - 1] == f);
            }
            if fs.take(n - 1).contains(k) {
                let i = choose|i: int| 0 <= i < n - 1 && #[trigger] fs.take(n - 1)[i] == k;
                assert(fs.take(n)[i] == k);
            }
        }
    }
}

/// Counting a click on counters that it finds in any state raises each of
/// its five counters by one (from zero where absent) and leaves every other
/// counter as it was.
pub proof fn lemma_save_counts_one_click(h: Counters, stats: Stats, ws: Seq<(Seq<char>, HashWrite)>)
    requires
        ws.len() == 5,
        forall|i: int|
            0 <= i < 5 ==> (#[trigger] ws[i]).0 == stats.fields_view()[i] && ws[i].1 == write_for(
                h.contains_key(stats.fields_view()[i]),
            ),
    ensures
        ({
            let after = apply_hash_writes(h, ws);
            let fs = stats.fields_view();
            &&& forall|i: int|
                0 <= i < 5 ==> after.contains_key(#[trigger] fs[i]) && after[fs[i]] == count_of(
                    h,
                    fs[i],
                ) + 1
            &&& forall|k: Seq<char>|
                !fs.contains(k) ==> (after.contains_key(k) == h.contains_key(k) && (
                h.contains_key(k) ==> after[k] == h[k]))
        }),
{
    let fs = stats.fields_view();
    lemma_fields_distinct(stats.refer@, stats.browser@, stats.os@, stats.country@);
    assert forall|i: int, j: int| 0 <= i < fs.len() && 0 <= j < fs.len() && i != j implies fs[i]
        != fs[j] by {}
    lemma_writes_prefix(h, fs, ws, 5);
    assert(ws.take(5) =~= ws);
}

} // verus!

verus! {

/// The kinds of named counters.
#[derive(Debug, Clone, Copy, PartialEq, Eq, Structural)]
pub enum StatKind {
    Refer,
    Browser,
    Os,
    Country,
}

/// The prefix that names the counters of a kind.
pub open spec fn kind_prefix(kind: StatKind) -> Seq<char> {
    match kind {
        StatKind::Refer => "refer"@,
        StatKind::Browser => "browser"@,
        StatKind::Os => "os"@,
        StatKind::Country => "country"@,
    }
}

/// The kind that a prefix names, if any.
pub open spec fn kind_named(typ: Seq<char>) -> Option<StatKind> {
    if typ == "refer"@ {
        Some(StatKind::Refer)
    } else if typ == "browser"@ {
        Some(StatKind::Browser)
    } else if typ == "os"@ {
        Some(StatKind::Os)
    } else if typ == "country"@ {
        Some(StatKind::Country)
    } else {
        None
    }
}

/// The first position at or after `from` that holds `c`, or the length
/// of `s` when there is none.
pub open spec fn first_from(s: Seq<char>, from: int, c: char) -> int
    decreases s.len() - from,
{
    if from < 0 || from >= s.len() {
        s.len() as int
    } else if s[from] == c {
        from
    } else {
        first_from(s, from + 1, c)
    }
}

/// What a counter's name stands for.
pub enum FieldModel {
    /// The total of clicks.
    Clicks,
    /// The counter of `name` among those of a kind.
    Named(StatKind, Seq<char>),
}

/// How a counter's name is read: `clicks` is the total; any other name is
/// cut at `_`, the first piece names the kind and the second piece (up to
/// the next `_`, if any) is the name. `None` for a name without `_` or
/// with a first piece that names no kind.
pub open spec fn field_model(key: Seq<char>) -> Option<FieldModel> {
    if key == "clicks"@ {
        Some(FieldModel::Clicks)
    } else {
        let u = first_from(key, 0, '_');
        if u >= key.len() {
            None
        } else {
            let e = first_from(key, u + 1, '_');
            match kind_named(key.subrange(0, u)) {
                Some(kind) => Some(FieldModel::Named(kind, key.subrange(u + 1, e))),
                None => None,
            }
        }
    }
}

/// What a counter's name stands for, read as [`field_model`] says.
pub enum StatField {
    Clicks,
    Named(StatKind, String),
}

/// The first position at or after `from` in `cs` that holds `c`, or the
/// length of `cs` when there is none.
fn find_from(cs: &Vec<char>, from: usize, c: char) -> (r: usize)
    requires
        from <= cs.len(),
    ensures
        r == first_from(cs@, from as int, c),
        from <= r <= cs.len(),
{
    let mut i = from;
    while i < cs.len()
        invariant
            from <= i <= cs.len(),
            first_from(cs@, from as int, c) == first_from(cs@, i as int, c),
        decreases cs.len() - i,
    {
        if cs[i] == c {
            return i;
        }
        i = i + 1;
    }
    i
}

fn slice_text(cs: &Vec<char>, start: usize, end: usize) -> (r: String)
    requires
        start <= end <= cs.len(),
    ensures
        r@ == cs@.subrange(start as int, end as int),
{
    let mut part: Vec<char> = Vec::new();
    let mut i = start;
    while i < end
        invariant
            start <= i <= end <= cs.len(),
            part@ == cs@.subrange(start as int, i as int),
        decreases end - i,
    {
        part.push(cs[i]);
        i = i + 1;
        assert(part@ =~= cs@.subrange(start as int, i as int));
    }
    string_of(&part)
}

fn kind_for(typ: &str) -> (r: Option<StatKind>)
    ensures
        r == kind_named(typ@),
{
    if same_text(typ, "refer") {
        Some(StatKind::Refer)
    } else if same_text(typ, "browser") {
        Some(StatKind::Browser)
    } else if same_text(typ, "os") {
        Some(StatKind::Os)
    } else if same_text(typ, "country") {
        Some(StatKind::Country)
    } else {
        None
    }
}

/// Reads a counter's name as [`field_model`] says.
pub fn parse_field(key: &str) -> (r: Option<StatField>)
    ensures
        match r {
            None => field_model(key@) is None,
            Some(StatField::Clicks) => field_model(key@) == Some(FieldModel::Clicks),
            Some(StatField::Named(kind, name)) => field_model(key@) == Some(
                FieldModel::Named(kind, name@),
            ),
        },
{
    if same_text(key, "clicks") {
        return Some(StatField::Clicks);
    }
    let cs = chars_of(key);
    let u = find_from(&cs, 0, '_');
    if u >= cs.len() {
        return None;
    }
    let e = find_from(&cs, u + 1, '_');
    let typ = slice_text(&cs, 0, u);
    match kind_for(typ.as_str()) {
        Some(kind) => Some(StatField::Named(kind, slice_text(&cs, u + 1, e))),
        None => None,
    }
}

/// Whether a counter's name can be read; the counters of a code are read
/// back only when all of them can.
pub fn is_stat_field(key: &str) -> (r: bool)
    ensures
        r == (field_model(key@) is Some),
{
    parse_field(key).is_some()
}

} // verus!

verus! {

/// The name of the counter of `name` among those of `kind`.
pub open spec fn field_for(kind: StatKind, name: Seq<char>) -> Seq<char> {
    kind_prefix(kind) + "_"@ + name
}

/// The name of the counter of `name` among those of `kind`.
pub fn field_name(kind: StatKind, name: &str) -> (r: String)
    ensures
        r@ == field_for(kind, name@),
{
    let prefix = match kind {
        StatKind::Refer => "refer_",
        StatKind::Browser => "browser_",
        StatKind::Os => "os_",
        StatKind::Country => "country_",
    };
    proof {
        reveal_strlit("refer_");
        reveal_strlit("refer");
        reveal_strlit("browser_");
        reveal_strlit("browser");
        reveal_strlit("os_");
        reveal_strlit("os");
        reveal_strlit("country_");
        reveal_strlit("country");
        reveal_strlit("_");
        assert(prefix@ =~= kind_prefix(kind) + "_"@);
    }
    joined(prefix, name)
}

/// The counters that a click touches are the total and the counters of
/// its referrer, browser, operating system and country.
pub proof fn lemma_fields_are_named(stats: Stats)
    ensures
        stats.fields_view()[0] == "clicks"@,
        stats.fields_view()[1] == field_for(StatKind::Refer, stats.refer@),
        stats.fields_view()[2] == field_for(StatKind::Browser, stats.browser@),
        stats.fields_view()[3] == field_for(StatKind::Os, stats.os@),
        stats.fields_view()[4] == field_for(StatKind::Country, stats.country@),
{
    reveal_strlit("refer_");
    reveal_strlit("refer");
    reveal_strlit("browser_");
    reveal_strlit("browser");
    reveal_strlit("os_");
    reveal_strlit("os");
    reveal_strlit("country_");
    reveal_strlit("country");
    reveal_strlit("_");
    assert("refer_"@ =~= "refer"@ + "_"@);
    assert("browser_"@ =~= "browser"@ + "_"@);
    assert("os_"@ =~= "os"@ + "_"@);
    assert("country_"@ =~= "country"@ + "_"@);
    assert(("refer"@ + "_"@) + stats.refer@ =~= field_for(StatKind::Refer, stats.refer@));
    assert(("browser"@ + "_"@) + stats.browser@ =~= field_for(StatKind::Browser, stats.browser@));
    assert(("os"@ + "_"@) + stats.os@ =~= field_for(StatKind::Os, stats.os@));
    assert(("country"@ + "_"@) + stats.country@ =~= field_for(StatKind::Country, stats.country@));
}

proof fn lemma_first_from_at(s: Seq<char>, from: int, c: char, t: int)
    requires
        0 <= from <= t <= s.len(),
        forall|j: int| from <= j < t ==> s[j] != c,
        t < s.len() ==> s[t] == c,
    ensures
        first_from(s, from, c) == t,
    decreases t - from,
{
    if from < t {
        lemma_first_from_at(s, from + 1, c, t);
    }
}

/// A counter named for a kind and a name without `_` reads back as that
/// kind and name.
pub proof fn lemma_field_round_trip(kind: StatKind, name: Seq<char>)
    requires
        !name.contains('_'),
    ensures
        field_model(field_for(kind, name)) == Some(FieldModel::Named(kind, name)),
{
    reveal_strlit("refer");
    reveal_strlit("browser");
    reveal_strlit("os");
    reveal_strlit("country");
    reveal_strlit("clicks");
    reveal_strlit("_");
    let p = kind_prefix(kind);
    let key = field_for(kind, name);
    assert(key[p.len() as int] == '_');
    assert(key != "clicks"@) by {
        if key == "clicks"@ {
            assert(key[p.len() as int] == "clicks"@[p.len() as int]);
        }
    }
    assert forall|j: int| 0 <= j < p.len() implies key[j] != '_' by {
        assert(key[j] == p[j]);
    }
    lemma_first_from_at(key, 0, '_', p.len() as int);
    assert forall|j: int| p.len() + 1 <= j < key.len() implies key[j] != '_' by {
        assert(key[j] == name[j - p.len() - 1]);
    }
    lemma_first_from_at(key, p.len() as int + 1, '_', key.len() as int);
    assert(key.subrange(0, p.len() as int) =~= p);
    assert(key.subrange(p.len() as int + 1, key.len() as int) =~= name);
}

/// The total of clicks reads back as the total.
pub proof fn lemma_clicks_field()
    ensures
        field_model("clicks"@) == Some(FieldModel::Clicks),
{
}

/// Counters by name; a later entry for a name replaces an earlier one.
pub struct Counts {
    pub entries: Vec<(String, u64)>,
}

/// The counters that the entries `es` give, the later replacing the
/// earlier.
pub open spec fn counts_map(es: Seq<(Seq<char>, u64)>) -> Map<Seq<char>, u64>
    decreases es.len(),
{
    if es.len() == 0 {
        Map::empty()
    } else {
        counts_map(es.drop_last()).insert(es.last().0, es.last().1)
    }
}

/// The entries of `es` by their views.
pub open spec fn entries_view(es: Seq<(String, u64)>) -> Seq<(Seq<char>, u64)> {
    es.map_values(|p: (String, u64)| (p.0@, p.1))
}

impl View for Counts {
    type V = Map<Seq<char>, u64>;

    open spec fn view(&self) -> Map<Seq<char>, u64> {
        counts_map(entries_view(self.entries@))
    }
}

impl Counts {
    /// No counters.
    pub fn new() -> (r: Counts)
        ensures
            r@ == Map::<Seq<char>, u64>::empty(),
    {
        let r = Counts { entries: Vec::new() };
        assert(entries_view(r.entries@) =~= Seq::<(Seq<char>, u64)>::empty());
        r
    }

    /// Sets the counter of `name` to `value`.
    pub fn record(&mut self, name: String, value: u64)
        ensures
            final(self)@ == old(self)@.insert(name@, value),
    {
        let ghost before = entries_view(self.entries@);
        let ghost key = name@;
        self.entries.push((name, value));
        assert(entries_view(self.entries@).drop_last() =~= before);
        assert(entries_view(self.entries@).last() == (key, value));
    }
}

/// The counters of a code, as read back.
pub struct SummaryModel {
    pub clicks: u64,
    pub refers: Map<Seq<char>, u64>,
    pub browsers: Map<Seq<char>, u64>,
    pub oss: Map<Seq<char>, u64>,
    pub countries: Map<Seq<char>, u64>,
}

/// Nothing read yet.
pub open spec fn empty_summary() -> SummaryModel {
    SummaryModel {
        clicks: 0,
        refers: Map::empty(),
        browsers: Map::empty(),
        oss: Map::empty(),
        countries: Map::empty(),
    }
}

/// The summary after reading the counter `key` with value `value`.
pub open spec fn summary_step(m: SummaryModel, key: Seq<char>, value: u64) -> SummaryModel {
    match field_model(key) {
        Some(FieldModel::Clicks) => SummaryModel { clicks: value, ..m },
        Some(FieldModel::Named(StatKind::Refer, name)) => SummaryModel {
            refers: m.refers.insert(name, value),
            ..m
        },
        Some(FieldModel::Named(StatKind::Browser, name)) => SummaryModel {
            browsers: m.browsers.insert(name, value),
            ..m
        },
        Some(FieldModel::Named(StatKind::Os, name)) => SummaryModel {
            oss: m.oss.insert(name, value),
            ..m
        },
        Some(FieldModel::Named(StatKind::Country, name)) => SummaryModel {
            countries: m.countries.insert(name, value),
            ..m
        },
        None => m,
    }
}

/// The summary of the counters `es`, read in order.
pub open spec fn summary_of(es: Seq<(Seq<char>, u64)>) -> SummaryModel
    decreases es.len(),
{
    if es.len() == 0 {
        empty_summary()
    } else {
        summary_step(summary_of(es.drop_last()), es.last().0, es.last().1)
    }
}

/// The counters of a code, read back: the total and the counters by
/// referrer, browser, operating system and country.
pub struct StatsSummary {
    pub clicks: u64,
    pub refers: Counts,
    pub browsers: Counts,
    pub oss: Counts,
    pub countries: Counts,
}

impl StatsSummary {
    /// The summary as plain values.
    pub open spec fn model(&self) -> SummaryModel {
        SummaryModel {
            clicks: self.clicks,
            refers: self.refers@,
            browsers: self.browsers@,
            oss: self.oss@,
            countries: self.countries@,
        }
    }
}

/// Reads back the counters `entries` of a code, in order: `clicks` sets
/// the total, and each other counter sets the count of its name among
/// those of its kind.
pub fn summarize(entries: &Vec<(String, u64)>) -> (r: StatsSummary)
    requires
        forall|i: int| 0 <= i < entries.len() ==> (#[trigger] field_model(entries@[i].0@)) is Some,
    ensures
        r.model() == summary_of(entries_view(entries@)),
{
    let mut r = StatsSummary {
        clicks: 0,
        refers: Counts::new(),
        browsers: Counts::new(),
        oss: Counts::new(),
        countries: Counts::new(),
    };
    let ghost es = entries_view(entries@);
    assert(es.take(0) =~= Seq::<(Seq<char>, u64)>::empty());
    let mut i: usize = 0;
    while i < entries.len()
        invariant
            es == entries_view(entries@),
            i <= entries.len(),
            r.model() == summary_of(es.take(i as int)),
        decreases entries.len() - i,
    {
        let key = &entries[i].0;
        let value = entries[i].1;
        assert(es.take(i + 1).drop_last() =~= es.take(i as int));
        assert(es.take(i + 1).last() == (key@, value));
        match parse_field(key.as_str()) {
            Some(StatField::Clicks) => {
                r.clicks = value;
            },
            Some(StatField::Named(kind, name)) => match kind {
                StatKind::Refer => r.refers.record(name, value),
                StatKind::Browser => r.browsers.record(name, value),
                StatKind::Os => r.oss.record(name, value),
                StatKind::Country => r.countries.record(name, value),
            },
            None => {},
        }
        i = i + 1;
    }
    assert(es.take(i as int) =~= es);
    r
}

} // verus!

verus! {

/// The value of the last entry of `es` for `key`, if any.
pub open spec fn value_in(es: Seq<(Seq<char>, u64)>, key: Seq<char>) -> Option<u64>
    decreases es.len(),
{
    if es.len() == 0 {
        None
    } else if es.last().0 == key {
        Some(es.last().1)
    } else {
        value_in(es.drop_last(), key)
    }
}

/// A single counter of `name` with the value found for `key`, or none.
pub open spec fn single_count(es: Seq<(Seq<char>, u64)>, key: Seq<char>, name: Seq<char>) -> Map<
    Seq<char>,
    u64,
> {
    match value_in(es, key) {
        Some(v) => Map::empty().insert(name, v),
        None => Map::empty(),
    }
}

/// What reading back counters that all belong to one click's statistics
/// gives: each part holds the last value read for its counter.
pub open spec fn summary_of_click_fields(stats: Stats, es: Seq<(Seq<char>, u64)>) -> SummaryModel {
    SummaryModel {
        clicks: match value_in(es, "clicks"@) {
            Some(v) => v,
            None => 0,
        },
        refers: single_count(es, field_for(StatKind::Refer, stats.refer@), stats.refer@),
        browsers: single_count(es, field_for(StatKind::Browser, stats.browser@), stats.browser@),
        oss: single_count(es, field_for(StatKind::Os, stats.os@), stats.os@),
        countries: single_count(es, field_for(StatKind::Country, stats.country@), stats.country@),
    }
}

/// Whether no text of a click's statistics holds `_`.
pub open spec fn names_plain(stats: Stats) -> bool {
    &&& !stats.refer@.contains('_')
    &&& !stats.browser@.contains('_')
    &&& !stats.os@.contains('_')
    &&& !stats.country@.contains('_')
}

/// Reading back, in any order and with any repetition, counters that are
/// all among those of one click gives for each part the last value read
/// for its counter, provided the click's texts hold no `_`.
pub proof fn lemma_read_back_click_fields(stats: Stats, es: Seq<(Seq<char>, u64)>)
    requires
        names_plain(stats),
        forall|i: int| 0 <= i < es.len() ==> stats.fields_view().contains(#[trigger] es[i].0),
    ensures
        summary_of(es) == summary_of_click_fields(stats, es),
    decreases es.len(),
{
    let fr = field_for(StatKind::Refer, stats.refer@);
    let fb = field_for(StatKind::Browser, stats.browser@);
    let fo = field_for(StatKind::Os, stats.os@);
    let fc = field_for(StatKind::Country, stats.country@);
    lemma_fields_are_named(stats);
    lemma_fields_distinct(stats.refer@, stats.browser@, stats.os@, stats.country@);
    let fs = stats.fields_view();
    assert(fs[0] != fs[1] && fs[0] != fs[2] && fs[0] != fs[3] && fs[0] != fs[4]);
    assert(fs[1] != fs[2] && fs[1] != fs[3] && fs[1] != fs[4]);
    assert(fs[2] != fs[3] && fs[2] != fs[4] && fs[3] != fs[4]);
    if es.len() > 0 {
        let prev = es.drop_last();
        assert forall|i: int| 0 <= i < prev.len() implies stats.fields_view().contains(
            #[trigger] prev[i].0,
        ) by {
            assert(prev[i] == es[i]);
        }
        lemma_read_back_click_fields(stats, prev);
        let (k, v) = es.last();
        assert(stats.fields_view().contains(es[es.len() - 1].0));
        let j = choose|j: int| 0 <= j < fs.len() && fs[j] == k;
        lemma_clicks_field();
        lemma_field_round_trip(StatKind::Refer, stats.refer@);
        lemma_field_round_trip(StatKind::Browser, stats.browser@);
        lemma_field_round_trip(StatKind::Os, stats.os@);
        lemma_field_round_trip(StatKind::Country, stats.country@);
        let m = summary_of(prev);
        if j == 0 {
            assert(summary_of(es) == summary_of_click_fields(stats, es));
        } else if j == 1 {
            assert(m.refers.insert(stats.refer@, v) =~= Map::empty().insert(stats.refer@, v));
            assert(summary_of(es) == summary_of_click_fields(stats, es));
        } else if j == 2 {
            assert(m.browsers.insert(stats.browser@, v) =~= Map::empty().insert(stats.browser@, v));
            assert(summary_of(es) == summary_of_click_fields(stats, es));
        } else if j == 3 {
            assert(m.oss.insert(stats.os@, v) =~= Map::empty().insert(stats.os@, v));
            assert(summary_of(es) == summary_of_click_fields(stats, es));
        } else {
            assert(m.countries.insert(stats.country@, v) =~= Map::empty().insert(stats.country@, v));
            assert(summary_of(es) == summary_of_click_fields(stats, es));
        }
    }
}

} // verus!

verus! {

/// When `key` is read somewhere in `es` and always with the value `v`,
/// the last value read for it is `v`.
proof fn lemma_value_in_constant(es: Seq<(Seq<char>, u64)>, key: Seq<char>, v: u64)
    requires
        exists|i: int| 0 <= i < es.len() && (#[trigger] es[i]).0 == key,
        forall|i: int| 0 <= i < es.len() && (#[trigger] es[i]).0 == key ==> es[i].1 == v,
    ensures
        value_in(es, key) == Some(v),
    decreases es.len(),
{
    if es.last().0 != key {
        let prev = es.drop_last();
        let i = choose|i: int| 0 <= i < es.len() && (#[trigger] es[i]).0 == key;
        assert(prev[i] == es[i]);
        assert forall|i: int| 0 <= i < prev.len() && (#[trigger] prev[i]).0 == key implies prev[i].1
            == v by {
            assert(prev[i] == es[i]);
        }
        lemma_value_in_constant(prev, key, v);
    } else {
        assert(es[es.len() - 1] == es.last());
    }
}

/// The first click on a code counts one in each of its five counters, and
/// reading those counters back, in any order, gives a total of one and a
/// count of one for the click's referrer, browser, operating system and
/// country, provided the click's texts hold no `_`.
pub proof fn lemma_first_click_reads_back(
    stats: Stats,
    ws: Seq<(Seq<char>, HashWrite)>,
    es: Seq<(Seq<char>, u64)>,
)
    requires
        names_plain(stats),
        ws.len() == 5,
        forall|i: int|
            0 <= i < 5 ==> (#[trigger] ws[i]).0 == stats.fields_view()[i] && ws[i].1 == write_for(
                Map::<Seq<char>, int>::empty().contains_key(stats.fields_view()[i]),
            ),
        forall|i: int|
            0 <= i < es.len() ==> apply_hash_writes(Map::empty(), ws).contains_key(
                (#[trigger] es[i]).0,
            ) && es[i].1 == apply_hash_writes(Map::empty(), ws)[es[i].0],
        forall|j: int|
            0 <= j < 5 ==> exists|i: int|
                0 <= i < es.len() && (#[trigger] es[i]).0 == #[trigger] stats.fields_view()[j],
    ensures
        summary_of(es) == (SummaryModel {
            clicks: 1,
            refers: Map::empty().insert(stats.refer@, 1),
            browsers: Map::empty().insert(stats.browser@, 1),
            oss: Map::empty().insert(stats.os@, 1),
            countries: Map::empty().insert(stats.country@, 1),
        }),
{
    let h = Map::<Seq<char>, int>::empty();
    let after = apply_hash_writes(h, ws);
    let fs = stats.fields_view();
    lemma_save_counts_one_click(h, stats, ws);
    assert forall|i: int| 0 <= i < es.len() implies fs.contains(#[trigger] es[i].0) by {
        if !fs.contains(es[i].0) {
            assert(!after.contains_key(es[i].0));
        }
    }
    lemma_read_back_click_fields(stats, es);
    assert forall|j: int| 0 <= j < 5 implies value_in(es, #[trigger] fs[j]) == Some(1u64) by {
        assert(after[fs[j]] == 1);
        let w = fs[j];
        assert(exists|i: int| 0 <= i < es.len() && (#[trigger] es[i]).0 == w);
        lemma_value_in_constant(es, w, 1);
    }
    lemma_fields_are_named(stats);
    assert(value_in(es, fs[0]) == Some(1u64));
    assert(value_in(es, fs[1]) == Some(1u64));
    assert(value_in(es, fs[2]) == Some(1u64));
    assert(value_in(es, fs[3]) == Some(1u64));
    assert(value_in(es, fs[4]) == Some(1u64));
}

} // verus!

verus! {

/// Adds the count of a key to a running total.
pub open spec fn add_count(m: Map<Seq<char>, int>) -> spec_fn(int, Seq<char>) -> int {
    |acc: int, k: Seq<char>| acc + m[k]
}

/// The sum of all counts of a map.
pub open spec fn total(m: Map<Seq<char>, int>) -> int {
    m.dom().fold(0int, add_count(m))
}

/// Counts by name as integers.
pub open spec fn widen(m: Map<Seq<char>, u64>) -> Map<Seq<char>, int> {
    Map::new(|k: Seq<char>| m.contains_key(k), |k: Seq<char>| m[k] as int)
}

proof fn lemma_add_count_commutative(m: Map<Seq<char>, int>)
    ensures
        vstd::set::fold::is_fun_commutative(add_count(m)),
{
    assert forall|a1: Seq<char>, a2: Seq<char>, b: int| #[trigger]
        add_count(m)(add_count(m)(b, a2), a1) == add_count(m)(add_count(m)(b, a1), a2) by {}
}

/// Summing over a set gives the same for two maps that agree on it.
proof fn lemma_fold_agree(s: Set<Seq<char>>, m1: Map<Seq<char>, int>, m2: Map<Seq<char>, int>)
    requires
        s.finite(),
        forall|k: Seq<char>| s.contains(k) ==> m1[k] == m2[k],
    ensures
        s.fold(0int, add_count(m1)) == s.fold(0int, add_count(m2)),
    decreases s.len(),
{
    lemma_add_count_commutative(m1);
    lemma_add_count_commutative(m2);
    if s.len() == 0 {
        assert(s =~= Set::<Seq<char>>::empty());
        vstd::set::fold::lemma_fold_empty(0int, add_count(m1));
        vstd::set::fold::lemma_fold_empty(0int, add_count(m2));
    } else {
        let a = s.choose();
        let rest = s.remove(a);
        lemma_fold_agree(rest, m1, m2);
        assert(rest.insert(a) =~= s);
        vstd::set::fold::lemma_fold_insert(rest, 0int, add_count(m1), a);
        vstd::set::fold::lemma_fold_insert(rest, 0int, add_count(m2), a);
    }
}

/// Summing over a set is summing over it without one member, plus that
/// member's count.
proof fn lemma_fold_remove(s: Set<Seq<char>>, m: Map<Seq<char>, int>, a: Seq<char>)
    requires
        s.finite(),
        s.contains(a),
    ensures
        s.fold(0int, add_count(m)) == s.remove(a).fold(0int, add_count(m)) + m[a],
{
    lemma_add_count_commutative(m);
    assert(s.remove(a).insert(a) =~= s);
    vstd::set::fold::lemma_fold_insert(s.remove(a), 0int, add_count(m), a);
}

/// The total of no counts is zero.
pub proof fn lemma_total_empty()
    ensures
        total(Map::<Seq<char>, int>::empty()) == 0,
{
    vstd::set::fold::lemma_fold_empty(0int, add_count(Map::<Seq<char>, int>::empty()));
}

/// Setting the count of `k` to `v` changes the total by `v` less the old
/// count of `k` (zero where `k` had none).
pub proof fn lemma_total_insert(m: Map<Seq<char>, int>, k: Seq<char>, v: int)
    requires
        m.dom().finite(),
    ensures
        total(m.insert(k, v)) == total(m) - (if m.contains_key(k) { m[k] } else { 0 }) + v,
{
    let m2 = m.insert(k, v);
    let rest = m.dom().remove(k);
    assert(m2.dom().remove(k) =~= rest);
    lemma_fold_remove(m2.dom(), m2, k);
    lemma_fold_agree(rest, m2, m);
    if m.contains_key(k) {
        lemma_fold_remove(m.dom(), m, k);
    } else {
        assert(rest =~= m.dom());
    }
}

} // verus!

verus! {

/// The counter name of a kind starts with a letter that no other kind's
/// starts with.
proof fn lemma_prefix_heads()
    ensures
        kind_prefix(StatKind::Refer)[0] == 'r',
        kind_prefix(StatKind::Browser)[0] == 'b',
        kind_prefix(StatKind::Os)[0] == 'o',
        kind_prefix(StatKind::Country)[0] == 'c',
        kind_prefix(StatKind::Country)[1] == 'o',
        "clicks"@[0] == 'c',
        "clicks"@[1] == 'l',
        "clicks"@.len() == 6,
        forall|kind: StatKind| kind_prefix(kind).len() >= 2,
        "_"@ == seq!['_'],
{
    reveal_strlit("refer");
    reveal_strlit("browser");
    reveal_strlit("os");
    reveal_strlit("country");
    reveal_strlit("clicks");
    reveal_strlit("_");
    assert("_"@ =~= seq!['_']);
}

/// Two counter names of kinds are equal only for the same kind and name.
pub proof fn lemma_field_for_injective(k1: StatKind, r1: Seq<char>, k2: StatKind, r2: Seq<char>)
    requires
        field_for(k1, r1) == field_for(k2, r2),
    ensures
        k1 == k2,
        r1 == r2,
{
    lemma_prefix_heads();
    let f = field_for(k1, r1);
    assert(f[0] == kind_prefix(k1)[0]);
    assert(field_for(k2, r2)[0] == kind_prefix(k2)[0]);
    assert(k1 == k2);
    let p = kind_prefix(k1).len() as int;
    assert(f.subrange(p + 1, f.len() as int) =~= r1);
    assert(field_for(k2, r2).subrange(p + 1, f.len() as int) =~= r2);
}

/// No counter name of a kind is the total of clicks.
pub proof fn lemma_field_for_not_clicks(kind: StatKind, r: Seq<char>)
    ensures
        field_for(kind, r) != "clicks"@,
{
    lemma_prefix_heads();
    let f = field_for(kind, r);
    assert(f[0] == kind_prefix(kind)[0]);
    assert(f[1] == kind_prefix(kind)[1]);
}

/// The name that a click records for a kind.
pub open spec fn name_of(stats: Stats, kind: StatKind) -> Seq<char> {
    match kind {
        StatKind::Refer => stats.refer@,
        StatKind::Browser => stats.browser@,
        StatKind::Os => stats.os@,
        StatKind::Country => stats.country@,
    }
}

/// The position of a kind's counter among a click's counters.
pub open spec fn kind_index(kind: StatKind) -> int {
    match kind {
        StatKind::Refer => 1,
        StatKind::Browser => 2,
        StatKind::Os => 3,
        StatKind::Country => 4,
    }
}

/// The part of a summary that holds the counts of a kind.
pub open spec fn part(m: SummaryModel, kind: StatKind) -> Map<Seq<char>, u64> {
    match kind {
        StatKind::Refer => m.refers,
        StatKind::Browser => m.browsers,
        StatKind::Os => m.oss,
        StatKind::Country => m.countries,
    }
}

/// Whether `k` can name a click's counter: the total, or a kind's counter
/// of a name without `_`.
pub open spec fn click_key(k: Seq<char>) -> bool {
    ||| k == "clicks"@
    ||| exists|kind: StatKind, r: Seq<char>| !r.contains('_') && k == #[trigger] field_for(kind, r)
}

/// The writes that [`Stats::save_writes`] gives for a click on counters
/// `h`, each counter's existence taken from `h`.
pub open spec fn click_writes(h: Counters, stats: Stats) -> Seq<(Seq<char>, HashWrite)> {
    Seq::new(
        5,
        |i: int| (stats.fields_view()[i], write_for(h.contains_key(stats.fields_view()[i]))),
    )
}

/// The counters of a code after the clicks `clicks`, counted in order on
/// counters that were empty.
pub open spec fn counters_after(clicks: Seq<Stats>) -> Counters
    decreases clicks.len(),
{
    if clicks.len() == 0 {
        Map::empty()
    } else {
        let h = counters_after(clicks.drop_last());
        apply_hash_writes(h, click_writes(h, clicks.last()))
    }
}

/// The counts of a kind in the counters: each name with the count of its
/// counter.
pub open spec fn kind_counts(h: Counters, kind: StatKind) -> Map<Seq<char>, int> {
    Map::new(|r: Seq<char>| h.contains_key(field_for(kind, r)), |r: Seq<char>| h[field_for(kind, r)])
}

/// What holds of the counters after any number of clicks.
pub open spec fn counters_hold(h: Counters, n: int) -> bool {
    &&& count_of(h, "clicks"@) == n
    &&& forall|k: Seq<char>| #[trigger] h.contains_key(k) ==> click_key(k)
    &&& forall|kind: StatKind|
        #![trigger kind_counts(h, kind)]
        kind_counts(h, kind).dom().finite() && total(kind_counts(h, kind)) == n
}

/// One more click keeps the kind's counts finite and raises their total by one.
proof fn lemma_click_kind_counts(h: Counters, stats: Stats, kind: StatKind)
    requires
        kind_counts(h, kind).dom().finite(),
    ensures
        ({
            let after = apply_hash_writes(h, click_writes(h, stats));
            &&& kind_counts(after, kind).dom().finite()
            &&& total(kind_counts(after, kind)) == total(kind_counts(h, kind)) + 1
        }),
{
    let ws = click_writes(h, stats);
    let after = apply_hash_writes(h, ws);
    let fs = stats.fields_view();
    lemma_save_counts_one_click(h, stats, ws);
    lemma_fields_are_named(stats);
    let name = name_of(stats, kind);
    let f = field_for(kind, name);
    assert(fs[kind_index(kind)] == f);
    let old_counts = kind_counts(h, kind);
    let new_counts = old_counts.insert(name, count_of(h, f) + 1);
    let after_counts = kind_counts(after, kind);
    assert forall|r: Seq<char>|
        #![trigger after_counts.dom().contains(r)]
        #![trigger new_counts.dom().contains(r)]
        after_counts.dom().contains(r) == new_counts.dom().contains(r) && (new_counts.dom().contains(r)
            ==> after_counts[r] == new_counts[r]) by {
        if r == name {
        } else {
            assert(!fs.contains(field_for(kind, r))) by {
                if fs.contains(field_for(kind, r)) {
                    let j = choose|j: int| 0 <= j < fs.len() && fs[j] == field_for(kind, r);
                    if j == 0 {
                        lemma_field_for_not_clicks(kind, r);
                    } else if j == 1 {
                        lemma_field_for_injective(kind, r, StatKind::Refer, stats.refer@);
                    } else if j == 2 {
                        lemma_field_for_injective(kind, r, StatKind::Browser, stats.browser@);
                    } else if j == 3 {
                        lemma_field_for_injective(kind, r, StatKind::Os, stats.os@);
                    } else {
                        lemma_field_for_injective(kind, r, StatKind::Country, stats.country@);
                    }
                }
            }
        }
    }
    assert(after_counts =~= new_counts);
    lemma_total_insert(old_counts, name, count_of(h, f) + 1);
}

/// After `clicks`, the total reads the number of clicks, every counter
/// names a click's counter, and each kind's counts add up to the number
/// of clicks.
pub proof fn lemma_counters_after(clicks: Seq<Stats>)
    requires
        forall|i: int| 0 <= i < clicks.len() ==> names_plain(#[trigger] clicks[i]),
    ensures
        counters_hold(counters_after(clicks), clicks.len() as int),
    decreases clicks.len(),
{
    if clicks.len() == 0 {
        lemma_total_empty();
        assert forall|kind: StatKind| #![trigger kind_counts(Map::<Seq<char>, int>::empty(), kind)]
            kind_counts(Map::<Seq<char>, int>::empty(), kind).dom().finite() && total(
                kind_counts(Map::<Seq<char>, int>::empty(), kind),
            ) == 0 by {
            assert(kind_counts(Map::<Seq<char>, int>::empty(), kind) =~= Map::<Seq<char>, int>::empty());
        }
    } else {
        let prev = clicks.drop_last();
        assert forall|i: int| 0 <= i < prev.len() implies names_plain(#[trigger] prev[i]) by {
            assert(prev[i] == clicks[i]);
        }
        lemma_counters_after(prev);
        let h = counters_after(prev);
        let stats = clicks.last();
        assert(names_plain(clicks[clicks.len() - 1]));
        let ws = click_writes(h, stats);
        let after = apply_hash_writes(h, ws);
        let fs = stats.fields_view();
        lemma_save_counts_one_click(h, stats, ws);
        lemma_fields_are_named(stats);
        assert(fs[0] == "clicks"@);
        assert forall|k: Seq<char>| #[trigger] after.contains_key(k) implies click_key(k) by {
            if fs.contains(k) {
                let j = choose|j: int| 0 <= j < fs.len() && fs[j] == k;
                if j == 1 {
                    assert(k == field_for(StatKind::Refer, stats.refer@));
                } else if j == 2 {
                    assert(k == field_for(StatKind::Browser, stats.browser@));
                } else if j == 3 {
                    assert(k == field_for(StatKind::Os, stats.os@));
                } else if j == 4 {
                    assert(k == field_for(StatKind::Country, stats.country@));
                }
            } else {
                assert(h.contains_key(k));
            }
        }
        assert forall|kind: StatKind| #![trigger kind_counts(after, kind)]
            kind_counts(after, kind).dom().finite() && total(kind_counts(after, kind))
                == clicks.len() as int by {
            assert(kind_counts(h, kind).dom().finite());
            lemma_click_kind_counts(h, stats, kind);
        }
    }
}

} // verus!

verus! {

/// Whether one of the first `j` entries read is for `key`.
pub open spec fn seen(es: Seq<(Seq<char>, u64)>, j: int, key: Seq<char>) -> bool {
    exists|i: int| 0 <= i < j && (#[trigger] es[i]).0 == key
}

/// The counts of a kind among the counters, as far as the keys read so far
/// reach.
pub open spec fn seen_counts(h: Counters, es: Seq<(Seq<char>, u64)>, j: int, kind: StatKind) -> Map<
    Seq<char>,
    int,
> {
    Map::new(
        |r: Seq<char>| h.contains_key(field_for(kind, r)) && seen(es, j, field_for(kind, r)),
        |r: Seq<char>| h[field_for(kind, r)],
    )
}

/// Reading entries of counters whose keys all name a click's counter
/// gives, after the first `j` entries, the total and each kind's counts of
/// the counters read so far.
proof fn lemma_read_back_prefix(h: Counters, es: Seq<(Seq<char>, u64)>, j: int)
    requires
        0 <= j <= es.len(),
        forall|k: Seq<char>| #[trigger] h.contains_key(k) ==> click_key(k),
        forall|i: int|
            0 <= i < es.len() ==> h.contains_key((#[trigger] es[i]).0) && es[i].1 == h[es[i].0],
    ensures
        summary_of(es.take(j)).clicks == (if seen(es, j, "clicks"@) {
            h["clicks"@]
        } else {
            0
        }),
        forall|kind: StatKind|
            #![trigger part(summary_of(es.take(j)), kind)]
            widen(part(summary_of(es.take(j)), kind)) == seen_counts(h, es, j, kind),
    decreases j,
{
    if j == 0 {
        assert(es.take(0) =~= Seq::<(Seq<char>, u64)>::empty());
        assert forall|kind: StatKind| #![trigger part(summary_of(es.take(j)), kind)]
            widen(part(summary_of(es.take(j)), kind)) == seen_counts(h, es, j, kind) by {
            assert(widen(part(summary_of(es.take(j)), kind)) =~= seen_counts(h, es, j, kind));
        }
    } else {
        lemma_read_back_prefix(h, es, j - 1);
        assert(es.take(j).drop_last() =~= es.take(j - 1));
        let (k, v) = es[j - 1];
        assert(es.take(j).last() == es[j - 1]);
        assert(h.contains_key(k));
        assert(click_key(k));
        let m0 = summary_of(es.take(j - 1));
        let m1 = summary_of(es.take(j));
        assert forall|key: Seq<char>| key != k implies seen(es, j, key) == seen(es, j - 1, key) by {
            if seen(es, j, key) {
                let i = choose|i: int| 0 <= i < j && (#[trigger] es[i]).0 == key;
                assert(i != j - 1);
            }
        }
        assert(seen(es, j, k));
        if k == "clicks"@ {
            lemma_clicks_field();
            assert forall|kind: StatKind| #![trigger part(summary_of(es.take(j)), kind)]
                widen(part(summary_of(es.take(j)), kind)) == seen_counts(h, es, j, kind) by {
                assert forall|r: Seq<char>| true implies seen(es, j, field_for(kind, r)) == seen(
                    es,
                    j - 1,
                    field_for(kind, r),
                ) by {
                    lemma_field_for_not_clicks(kind, r);
                }
                assert(part(m1, kind) == part(m0, kind));
                assert(widen(part(m0, kind)) == seen_counts(h, es, j - 1, kind));
                assert(seen_counts(h, es, j, kind) =~= seen_counts(h, es, j - 1, kind));
            }
        } else {
            let (k0, r0) = choose|kind: StatKind, r: Seq<char>|
                !r.contains('_') && k == #[trigger] field_for(kind, r);
            lemma_field_round_trip(k0, r0);
            lemma_field_for_not_clicks(k0, r0);
            assert(seen(es, j, "clicks"@) == seen(es, j - 1, "clicks"@));
            assert forall|kind: StatKind| #![trigger part(summary_of(es.take(j)), kind)]
                widen(part(summary_of(es.take(j)), kind)) == seen_counts(h, es, j, kind) by {
                if kind == k0 {
                    assert(part(m1, kind) == part(m0, kind).insert(r0, v));
                    assert forall|r: Seq<char>| r != r0 implies seen(es, j, field_for(kind, r))
                        == seen(es, j - 1, field_for(kind, r)) by {
                        if field_for(kind, r) == k {
                            lemma_field_for_injective(kind, r, k0, r0);
                        }
                    }
                    assert(widen(part(m0, kind)) == seen_counts(h, es, j - 1, kind));
                    let w0 = widen(part(m0, kind));
                    let w1 = widen(part(m1, kind));
                    let sc = seen_counts(h, es, j, kind);
                    assert forall|r: Seq<char>|
                        #![trigger w1.dom().contains(r)]
                        #![trigger sc.dom().contains(r)]
                        w1.dom().contains(r) == sc.dom().contains(r) && (sc.dom().contains(r)
                            ==> w1[r] == sc[r]) by {
                        if r == r0 {
                            assert(field_for(kind, r) == k);
                            assert(seen(es, j, k));
                            assert(sc.dom().contains(r));
                            assert(es[j - 1].1 == h[k]);
                            assert(w1[r] == v as int);
                            assert(sc[r] == h[k]);
                        } else {
                            let s0 = seen_counts(h, es, j - 1, kind);
                            assert(seen(es, j, field_for(kind, r)) == seen(es, j - 1, field_for(kind, r)));
                            assert(w1.dom().contains(r) == w0.dom().contains(r));
                            assert(w0.dom().contains(r) == s0.dom().contains(r));
                            assert(s0.dom().contains(r) == sc.dom().contains(r));
                            if sc.dom().contains(r) {
                                assert(w1[r] == w0[r]);
                                assert(w0[r] == s0[r]);
                                assert(s0[r] == sc[r]);
                            }
                        }
                    }
                    assert(w1 =~= sc);
                } else {
                    assert(part(m1, kind) == part(m0, kind));
                    assert forall|r: Seq<char>| true implies seen(es, j, field_for(kind, r)) == seen(
                        es,
                        j - 1,
                        field_for(kind, r),
                    ) by {
                        if field_for(kind, r) == k {
                            lemma_field_for_injective(kind, r, k0, r0);
                        }
                    }
                    assert(seen_counts(h, es, j, kind) =~= seen_counts(h, es, j - 1, kind));
                }
            }
        }
    }
}

/// Any number of clicks, each with texts free of `_`, counted on a code's
/// empty counters and then read back in any order (every counter read,
/// possibly more than once, always with its value): the total reads the
/// number of clicks, and the counts by referrer, by browser, by operating
/// system and by country each add up to the number of clicks.
pub proof fn lemma_clicks_read_back(clicks: Seq<Stats>, es: Seq<(Seq<char>, u64)>)
    requires
        forall|i: int| 0 <= i < clicks.len() ==> names_plain(#[trigger] clicks[i]),
        forall|i: int|
            0 <= i < es.len() ==> counters_after(clicks).contains_key((#[trigger] es[i]).0)
                && es[i].1 == counters_after(clicks)[es[i].0],
        forall|k: Seq<char>|
            #[trigger] counters_after(clicks).contains_key(k) ==> exists|i: int|
                0 <= i < es.len() && (#[trigger] es[i]).0 == k,
    ensures
        summary_of(es).clicks == clicks.len(),
        total(widen(summary_of(es).refers)) == clicks.len(),
        total(widen(summary_of(es).browsers)) == clicks.len(),
        total(widen(summary_of(es).oss)) == clicks.len(),
        total(widen(summary_of(es).countries)) == clicks.len(),
{
    let h = counters_after(clicks);
    let n = es.len() as int;
    lemma_counters_after(clicks);
    lemma_read_back_prefix(h, es, n);
    assert(es.take(n) =~= es);
    assert forall|key: Seq<char>| h.contains_key(key) implies #[trigger] seen(es, n, key) by {
        let i = choose|i: int| 0 <= i < es.len() && (#[trigger] es[i]).0 == key;
    }
    assert forall|kind: StatKind| #![trigger part(summary_of(es), kind)]
        total(widen(part(summary_of(es), kind))) == clicks.len() by {
        assert(seen_counts(h, es, n, kind) =~= kind_counts(h, kind));
        assert(part(summary_of(es.take(n)), kind) == part(summary_of(es), kind));
    }
    if seen(es, n, "clicks"@) {
    } else {
        assert(!h.contains_key("clicks"@));
    }
    assert(part(summary_of(es), StatKind::Refer) == summary_of(es).refers);
    assert(part(summary_of(es), StatKind::Browser) == summary_of(es).browsers);
    assert(part(summary_of(es), StatKind::Os) == summary_of(es).oss);
    assert(part(summary_of(es), StatKind::Country) == summary_of(es).countries);
}

} // verus!

verus! {

/// The writes that [`Stats::save_writes`] returns, given each counter's
/// existence in `h`, are the writes of the click model.
pub proof fn lemma_save_writes_are_click_writes(
    stats: Stats,
    h: Counters,
    exists: Seq<bool>,
    ws: Seq<(String, HashWrite)>,
)
    requires
        exists.len() == 5,
        ws.len() == 5,
        forall|i: int| 0 <= i < 5 ==> #[trigger] exists[i] == h.contains_key(stats.fields_view()[i]),
        forall|i: int|
            0 <= i < 5 ==> (#[trigger] ws[i]).0@ == stats.fields_view()[i] && ws[i].1 == write_for(
                exists[i],
            ),
    ensures
        ws.map_values(|p: (String, HashWrite)| (p.0@, p.1)) == click_writes(h, stats),
{
    let lhs = ws.map_values(|p: (String, HashWrite)| (p.0@, p.1));
    assert forall|i: int| 0 <= i < 5 implies #[trigger] lhs[i] == click_writes(h, stats)[i] by {
        assert(exists[i] == h.contains_key(stats.fields_view()[i]));
    }
    assert(lhs =~= click_writes(h, stats));
}

} // verus!
