//! Short codes and the shortening protocol.
//!
//! The store that maps long URLs to short codes and back is a plain
//! key-value store outside this library. Its contents are modelled as a
//! `Map` from key to value; the functions here decide what to read and
//! what to write, and the proof functions state what a run of the
//! protocol does to the model.

use vstd::prelude::*;
use crate::bindings::{random_u64, regex_matches, regex_is_match};
use crate::env_loader::Env;
use crate::text::{same_text, string_of};

verus! {

/// The contents of a key-value store: each key with its value.
pub type Store = Map<Seq<char>, Seq<char>>;

/// The characters that the alphabet called `name` is made of, in order;
/// `None` for a name that is not one of the four alphabets.
pub open spec fn alphabet_chars(name: Seq<char>) -> Option<Seq<char>> {
    if name == "hex"@ {
        Some(seq!['0', '1', '2', '3', '4', '5', '6', '7', '8', '9', 'a', 'b', 'c', 'd', 'e', 'f'])
    } else if name == "decimal"@ {
        Some(seq!['0', '1', '2', '3', '4', '5', '6', '7', '8', '9'])
    } else if name == "alpha"@ {
        Some(seq!['a', 'b', 'c', 'd', 'e', 'f', 'g', 'h', 'i', 'j', 'k', 'l', 'm', 'n', 'o', 'p', 'q', 'r', 's', 't', 'u', 'v', 'w', 'x', 'y', 'z'])
    } else if name == "alpha-numeric"@ {
        Some(seq!['a', 'b', 'c', 'd', 'e', 'f', 'g', 'h', 'i', 'j', 'k', 'l', 'm', 'n', 'o', 'p', 'q', 'r', 's', 't', 'u', 'v', 'w', 'x', 'y', 'z', '0', '1', '2', '3', '4', '5', '6', '7', '8', '9'])
    } else {
        None
    }
}

/// The code that the draws `draws` give over `alphabet`: draw `i` picks
/// the character at its remainder by the alphabet's size.
pub open spec fn code_from(draws: Seq<u64>, alphabet: Seq<char>) -> Seq<char> {
    Seq::new(draws.len(), |i: int| alphabet[(draws[i] as int) % (alphabet.len() as int)])
}

/// Whether `code` could be a short code of `length` characters over the
/// alphabet called `name`: some draws give it.
pub open spec fn is_code_of(code: Seq<char>, length: nat, name: Seq<char>) -> bool {
    exists|draws: Seq<u64>|
        draws.len() == length && code == #[trigger] code_from(draws, alphabet_chars(name).unwrap())
}

/// The characters of the alphabet called `name`, or `None` when the name
/// is not one of `hex`, `decimal`, `alpha` and `alpha-numeric`.
pub fn alphabet_for(name: &str) -> (r: Option<Vec<char>>)
    ensures
        match r {
            Some(v) => alphabet_chars(name@) == Some(v@),
            None => alphabet_chars(name@) is None,
        },
{
    if same_text(name, "hex") {
        Some(vec!['0', '1', '2', '3', '4', '5', '6', '7', '8', '9', 'a', 'b', 'c', 'd', 'e', 'f'])
    } else if same_text(name, "decimal") {
        Some(vec!['0', '1', '2', '3', '4', '5', '6', '7', '8', '9'])
    } else if same_text(name, "alpha") {
        Some(vec!['a', 'b', 'c', 'd', 'e', 'f', 'g', 'h', 'i', 'j', 'k', 'l', 'm', 'n', 'o', 'p', 'q', 'r', 's', 't', 'u', 'v', 'w', 'x', 'y', 'z'])
    } else if same_text(name, "alpha-numeric") {
        Some(vec!['a', 'b', 'c', 'd', 'e', 'f', 'g', 'h', 'i', 'j', 'k', 'l', 'm', 'n', 'o', 'p', 'q', 'r', 's', 't', 'u', 'v', 'w', 'x', 'y', 'z', '0', '1', '2', '3', '4', '5', '6', '7', '8', '9'])
    } else {
        None
    }
}

/// The short code that the given draws give over the alphabet called
/// `alphabet_name`.
pub fn code_from_draws(draws: &Vec<u64>, alphabet_name: &str) -> (r: String)
    requires
        alphabet_chars(alphabet_name@) is Some,
    ensures
        r@ == code_from(draws@, alphabet_chars(alphabet_name@).unwrap()),
{
    let alphabet = match alphabet_for(alphabet_name) {
        Some(a) => a,
        None => {
            return String::new();
        },
    };
    let ghost a = alphabet@;
    assert(a.len() > 0);
    let mut cs: Vec<char> = Vec::new();
    let mut i: usize = 0;
    while i < draws.len()
        invariant
            a == alphabet@,
            a.len() > 0,
            i <= draws.len(),
            cs@ == code_from(draws@.take(i as int), a),
        decreases draws.len() - i,
    {
        let k = (draws[i] % (alphabet.len() as u64)) as usize;
        cs.push(alphabet[k]);
        i = i + 1;
        assert(cs@ =~= code_from(draws@.take(i as int), a));
    }
    assert(draws@.take(i as int) =~= draws@);
    string_of(&cs)
}

/// A fresh short code of `length` characters drawn at random from the
/// alphabet called `alphabet_name`. Which code comes out is left to
/// chance: any code that some draws give may.
pub fn random(length: usize, alphabet_name: String) -> (r: String)
    requires
        alphabet_chars(alphabet_name@) is Some,
    ensures
        is_code_of(r@, length as nat, alphabet_name@),
        r@.len() == length,
        forall|i: int|
            0 <= i < r@.len() ==> alphabet_chars(alphabet_name@).unwrap().contains(#[trigger] r@[i]),
        forall|i: int|
            0 <= i < r@.len() ==> ('a' <= #[trigger] r@[i] && r@[i] <= 'z') || ('0' <= r@[i] && r@[i]
                <= '9'),
{
    let mut draws: Vec<u64> = Vec::new();
    let mut i: usize = 0;
    while i < length
        invariant
            i <= length,
            draws@.len() == i,
        decreases length - i,
    {
        draws.push(random_u64());
        i = i + 1;
    }
    let r = code_from_draws(&draws, alphabet_name.as_str());
    proof {
        let a = alphabet_chars(alphabet_name@).unwrap();
        assert(r@ == code_from(draws@, a));
        assert forall|i: int| 0 <= i < r@.len() implies a.contains(#[trigger] r@[i]) by {
            let k = (draws@[i] as int) % (a.len() as int);
            assert(0 <= k < a.len());
            assert(a[k] == r@[i]);
        }
        lemma_code_chars_lower_or_digit(draws@, alphabet_name@);
        assert forall|i: int| 0 <= i < r@.len() implies ('a' <= #[trigger] r@[i] && r@[i] <= 'z') || (
        '0' <= r@[i] && r@[i] <= '9') by {
            assert(r@[i] == code_from(draws@, a)[i]);
        }
    }
    r
}

/// What the store answers for `key`.
pub open spec fn lookup(store: Store, key: Seq<char>) -> Option<Seq<char>> {
    if store.contains_key(key) {
        Some(store[key])
    } else {
        None
    }
}

/// The store after the writes `sets`, made in order.
pub open spec fn apply_sets(store: Store, sets: Seq<(Seq<char>, Seq<char>)>) -> Store
    decreases sets.len(),
{
    if sets.len() == 0 {
        store
    } else {
        apply_sets(store, sets.drop_last()).insert(sets.last().0, sets.last().1)
    }
}

/// One shortening request on the store: a URL that the pattern refuses is
/// answered with nothing; a URL already in the store is answered with its
/// code; otherwise the fresh code is answered, after the store was made to
/// map the code to the URL and the URL to the code.
pub open spec fn shorten_model(store: Store, url: Seq<char>, accepted: bool, fresh: Seq<char>) -> (
    Option<Seq<char>>,
    Store,
) {
    if !accepted {
        (None, store)
    } else if store.contains_key(url) {
        (Some(store[url]), store)
    } else {
        (Some(fresh), store.insert(fresh, url).insert(url, fresh))
    }
}

/// One resolution request on the store: the URL that a code stands for.
pub open spec fn resolve_model(store: Store, code: Seq<char>) -> Option<Seq<char>> {
    lookup(store, code)
}

/// Whether every key of the store maps to a key that maps back to it: the
/// shape that shortening keeps, with URLs and their codes paired.
pub open spec fn linked(store: Store) -> bool {
    forall|k: Seq<char>|
        #[trigger] store.contains_key(k) ==> store.contains_key(store[k]) && store[store[k]] == k
}

/// An empty store is paired, so the laws below hold from a fresh store on.
pub proof fn lemma_empty_store_linked()
    ensures
        linked(Map::<Seq<char>, Seq<char>>::empty()),
{
}

/// A string pair by its view.
pub open spec fn pair_view(p: (String, String)) -> (Seq<char>, Seq<char>) {
    (p.0@, p.1@)
}

/// An optional string by its view.
pub open spec fn opt_view(o: Option<String>) -> Option<Seq<char>> {
    match o {
        Some(s) => Some(s@),
        None => None,
    }
}

/// The answer to a shortening request whose URL was accepted, and the
/// writes to make before answering.
pub struct ShortReply {
    pub short: String,
    pub sets: Vec<(String, String)>,
}

/// Whether `short` and `sets` are the answer and the writes for `url`,
/// given what the store held under `url`: the code found there and no
/// writes, or the code `short` paired with the URL both ways.
pub open spec fn reply_follows(
    url: Seq<char>,
    existing: Option<Seq<char>>,
    short: Seq<char>,
    sets: Seq<(Seq<char>, Seq<char>)>,
) -> bool {
    match existing {
        Some(s) => short == s && sets.len() == 0,
        None => sets == seq![(short, url), (url, short)],
    }
}

/// Whether the configured pattern accepts `long_url` for shortening.
pub fn accepts_url(env: &Env, long_url: &str) -> (r: bool)
    ensures
        r == regex_matches(env@.url_regex, long_url@),
{
    let pattern = env.url_regex();
    match regex_is_match(pattern.as_str(), long_url) {
        Some(b) => b,
        None => false,
    }
}

/// The answer to a shortening request for an accepted `long_url`, once
/// the store was asked for it and answered `existing`: the code found, or
/// a fresh random code with the two writes that pair it with the URL.
pub fn reply_after_lookup(env: &Env, long_url: &str, existing: Option<String>) -> (r: ShortReply)
    requires
        existing is None ==> alphabet_chars(env@.short_alphabet) is Some,
    ensures
        reply_follows(long_url@, opt_view(existing), r.short@, r.sets@.map_values(|p| pair_view(p))),
        existing is None ==> is_code_of(r.short@, env@.short_length, env@.short_alphabet),
{
    match existing {
        Some(s) => {
            let sets: Vec<(String, String)> = Vec::new();
            let r = ShortReply { short: s, sets };
            assert(r.sets@.map_values(|p| pair_view(p)) =~= Seq::<(Seq<char>, Seq<char>)>::empty());
            r
        },
        None => {
            let code = random(env.short_length(), env.short_alphabet().clone());
            let mut sets: Vec<(String, String)> = Vec::new();
            sets.push((code.clone(), long_url.to_owned()));
            sets.push((long_url.to_owned(), code.clone()));
            let r = ShortReply { short: code, sets };
            assert(r.sets@.map_values(|p| pair_view(p)) =~= seq![
                (r.short@, long_url@),
                (long_url@, r.short@),
            ]);
            r
        },
    }
}

/// A reply computed from what the store held under the URL is the
/// shortening model's answer with the reply's code as the fresh code, and
/// making the reply's writes leaves the store as the model does.
pub proof fn lemma_reply_follows_model(
    store: Store,
    url: Seq<char>,
    short: Seq<char>,
    sets: Seq<(Seq<char>, Seq<char>)>,
)
    requires
        reply_follows(url, lookup(store, url), short, sets),
    ensures
        shorten_model(store, url, true, short) == (Some(short), apply_sets(store, sets)),
{
    if store.contains_key(url) {
        assert(sets.len() == 0);
    } else {
        assert(sets.drop_last().drop_last() =~= Seq::<(Seq<char>, Seq<char>)>::empty());
        assert(sets.drop_last() =~= seq![(short, url)]);
        assert(apply_sets(store, sets.drop_last().drop_last()) == store);
        assert(apply_sets(store, sets.drop_last()) == store.insert(short, url));
    }
}

/// A URL that the pattern refuses is answered with nothing, and the store
/// is left as it was.
pub proof fn lemma_refused_url_changes_nothing(store: Store, url: Seq<char>, fresh: Seq<char>)
    ensures
        shorten_model(store, url, false, fresh) == (None::<Seq<char>>, store),
{
}

/// Resolving the code that shortening answered gives the URL back, on a
/// store whose URLs and codes are paired.
pub proof fn lemma_shorten_then_resolve(store: Store, url: Seq<char>, fresh: Seq<char>)
    requires
        linked(store),
    ensures
        ({
            let (answer, after) = shorten_model(store, url, true, fresh);
            &&& answer is Some
            &&& resolve_model(after, answer.unwrap()) == Some(url)
        }),
{
    if store.contains_key(url) {
        assert(store.contains_key(store[url]));
    }
}

/// Shortening the same URL twice gives the same answer, and the second
/// request does not change the store, whatever fresh code it drew.
pub proof fn lemma_shorten_twice(
    store: Store,
    url: Seq<char>,
    accepted: bool,
    fresh1: Seq<char>,
    fresh2: Seq<char>,
)
    ensures
        ({
            let (answer1, after1) = shorten_model(store, url, accepted, fresh1);
            let (answer2, after2) = shorten_model(after1, url, accepted, fresh2);
            answer2 == answer1 && after2 == after1
        }),
{
}

/// Shortening keeps URLs and codes paired, as long as a fresh code is not
/// already a key of the store.
pub proof fn lemma_shorten_keeps_linked(store: Store, url: Seq<char>, accepted: bool, fresh: Seq<char>)
    requires
        linked(store),
        !store.contains_key(fresh),
    ensures
        linked(shorten_model(store, url, accepted, fresh).1),
{
    if accepted && !store.contains_key(url) {
        let after = store.insert(fresh, url).insert(url, fresh);
        assert forall|k: Seq<char>| #[trigger] after.contains_key(k) implies after.contains_key(
            after[k],
        ) && after[after[k]] == k by {
            if k != url && k != fresh {
                assert(store.contains_key(k));
                assert(store[k] != fresh);
                assert(store[k] != url);
            }
        }
    }
}

} // verus!

verus! {

/// The four alphabets are runs of consecutive characters: `hex` is the
/// ten digits then `a` to `f`, `decimal` the ten digits, `alpha` the
/// letters `a` to `z`, and `alpha-numeric` the letters `a` to `z` then the
/// ten digits.
pub proof fn lemma_alphabets_are_char_runs()
    ensures
        alphabet_chars("hex"@) is Some,
        alphabet_chars("hex"@).unwrap().len() == 16,
        forall|i: int|
            0 <= i < 10 ==> #[trigger] alphabet_chars("hex"@).unwrap()[i] as int == '0' as int + i,
        forall|i: int|
            10 <= i < 16 ==> #[trigger] alphabet_chars("hex"@).unwrap()[i] as int == 'a' as int + (i
                - 10),
        alphabet_chars("decimal"@) is Some,
        alphabet_chars("decimal"@).unwrap().len() == 10,
        forall|i: int|
            0 <= i < 10 ==> #[trigger] alphabet_chars("decimal"@).unwrap()[i] as int == '0' as int
                + i,
        alphabet_chars("alpha"@) is Some,
        alphabet_chars("alpha"@).unwrap().len() == 26,
        forall|i: int|
            0 <= i < 26 ==> #[trigger] alphabet_chars("alpha"@).unwrap()[i] as int == 'a' as int + i,
        alphabet_chars("alpha-numeric"@) is Some,
        alphabet_chars("alpha-numeric"@).unwrap().len() == 36,
        forall|i: int|
            0 <= i < 26 ==> #[trigger] alphabet_chars("alpha-numeric"@).unwrap()[i] as int == 'a' as int
                + i,
        forall|i: int|
            26 <= i < 36 ==> #[trigger] alphabet_chars("alpha-numeric"@).unwrap()[i] as int == '0' as int
                + (i - 26),
{
    reveal_strlit("hex");
    reveal_strlit("decimal");
    reveal_strlit("alpha");
    reveal_strlit("alpha-numeric");
    assert("hex"@.len() == 3 && "decimal"@.len() == 7 && "alpha"@.len() == 5);
    assert("alpha-numeric"@.len() == 13);
    assert("hex"@ != "decimal"@);
    assert("alpha"@ != "hex"@ && "alpha"@ != "decimal"@);
    assert("alpha-numeric"@ != "hex"@ && "alpha-numeric"@ != "decimal"@ && "alpha-numeric"@ != "alpha"@);
}

} // verus!

verus! {

/// Every character of an alphabet is an ASCII lowercase letter or digit,
/// and no character occurs twice in it.
pub proof fn lemma_alphabet_chars_distinct_lower_or_digit(name: Seq<char>)
    requires
        alphabet_chars(name) is Some,
    ensures
        alphabet_chars(name).unwrap().no_duplicates(),
        forall|i: int|
            0 <= i < alphabet_chars(name).unwrap().len() ==> {
                let c = #[trigger] alphabet_chars(name).unwrap()[i];
                ('a' <= c && c <= 'z') || ('0' <= c && c <= '9')
            },
{
    lemma_alphabets_are_char_runs();
    let a = alphabet_chars(name).unwrap();
    assert('0' as int == 48 && '9' as int == 57 && 'a' as int == 97 && 'z' as int == 122);
    assert forall|i: int| 0 <= i < a.len() implies {
        let c = #[trigger] a[i];
        ('a' <= c && c <= 'z') || ('0' <= c && c <= '9')
    } by {}
    assert forall|i: int, j: int| 0 <= i < a.len() && 0 <= j < a.len() && i != j implies a[i]
        != a[j] by {
        assert(a[i] as int != a[j] as int);
    }
}

/// Every character of a code is an ASCII lowercase letter or digit.
pub proof fn lemma_code_chars_lower_or_digit(draws: Seq<u64>, name: Seq<char>)
    requires
        alphabet_chars(name) is Some,
    ensures
        forall|j: int|
            0 <= j < draws.len() ==> {
                let c = #[trigger] code_from(draws, alphabet_chars(name).unwrap())[j];
                ('a' <= c && c <= 'z') || ('0' <= c && c <= '9')
            },
{
    lemma_alphabet_chars_distinct_lower_or_digit(name);
    let a = alphabet_chars(name).unwrap();
    assert forall|j: int| 0 <= j < draws.len() implies {
        let c = #[trigger] code_from(draws, a)[j];
        ('a' <= c && c <= 'z') || ('0' <= c && c <= '9')
    } by {
        let k = (draws[j] as int) % (a.len() as int);
        assert(0 <= k < a.len());
        assert(code_from(draws, a)[j] == a[k]);
    }
}

/// Each character of a code is decided by its own draw alone: two runs of
/// draws of one length give the same code exactly when they agree, draw by
/// draw, on the remainder by the alphabet's size.
pub proof fn lemma_code_positions_independent(name: Seq<char>, d1: Seq<u64>, d2: Seq<u64>)
    requires
        alphabet_chars(name) is Some,
        d1.len() == d2.len(),
    ensures
        code_from(d1, alphabet_chars(name).unwrap()) == code_from(d2, alphabet_chars(name).unwrap())
            <==> forall|j: int|
            0 <= j < d1.len() ==> #[trigger] ((d1[j] as int) % (alphabet_chars(name).unwrap().len()
                as int)) == (d2[j] as int) % (alphabet_chars(name).unwrap().len() as int),
{
    lemma_alphabet_chars_distinct_lower_or_digit(name);
    let a = alphabet_chars(name).unwrap();
    let n = a.len() as int;
    let c1 = code_from(d1, a);
    let c2 = code_from(d2, a);
    if c1 == c2 {
        assert forall|j: int| 0 <= j < d1.len() implies #[trigger] ((d1[j] as int) % n) == (d2[j]
            as int) % n by {
            let k1 = (d1[j] as int) % n;
            let k2 = (d2[j] as int) % n;
            assert(c1[j] == a[k1]);
            assert(c2[j] == a[k2]);
        }
    }
    if forall|j: int| 0 <= j < d1.len() ==> #[trigger] ((d1[j] as int) % n) == (d2[j] as int) % n {
        assert(c1 =~= c2);
    }
}

/// Every code of a given length over an alphabet is given by some draws of
/// that length.
pub proof fn lemma_every_code_can_come_out(name: Seq<char>, code: Seq<char>)
    requires
        alphabet_chars(name) is Some,
        forall|j: int| 0 <= j < code.len() ==> alphabet_chars(name).unwrap().contains(#[trigger] code[j]),
    ensures
        exists|draws: Seq<u64>|
            draws.len() == code.len() && #[trigger] code_from(draws, alphabet_chars(name).unwrap())
                == code,
{
    let a = alphabet_chars(name).unwrap();
    lemma_alphabets_are_char_runs();
    assert(a.len() <= 36);
    let draws = Seq::new(
        code.len(),
        |j: int| (choose|k: int| 0 <= k < a.len() && a[k] == code[j]) as u64,
    );
    assert forall|j: int| 0 <= j < code.len() implies #[trigger] code_from(draws, a)[j] == code[j] by {
        assert(a.contains(code[j]));
        let k = choose|k: int| 0 <= k < a.len() && a[k] == code[j];
        assert(draws[j] as int == k);
        let n = a.len() as int;
        assert(0 <= k < n);
        assert(k % n == k) by (nonlinear_arith)
            requires
                0 <= k < n,
        ;
    }
    assert(code_from(draws, a) =~= code);
}

} // verus!
