//! Absolute URLs: `scheme://user@host:port/path?query#fragment`.

use crate::header_map::{
    distinct_keys, last_value, lemma_put_all_last_wins, lookup, put, put_all, HeaderMap, Pair,
};
use crate::number::{parse_unsigned, read_unsigned};
use crate::text::{
    as_index, chars_of, find, find_char, first_index, first_occurrence, last_index,
    lemma_first_index_from, lemma_last_index_upto, rfind_char, string_of,
};
use vstd::prelude::*;
use vstd::slice::slice_subrange;

verus! {

/// The port that a URL without one stands for.
pub const DEFAULT_PORT: u16 = 443;

/// The parts of a URL as character sequences.
pub struct UrlView {
    pub scheme: Seq<char>,
    pub user_info: Option<Seq<char>>,
    pub domain: Seq<char>,
    pub port: Option<u16>,
    pub path: Seq<char>,
    pub query: Option<Seq<char>>,
    pub fragment: Option<Seq<char>>,
}

/// The separator between the scheme and the rest.
pub open spec fn scheme_separator() -> Seq<char> {
    seq![':', '/', '/']
}

/// `s` before index `at`, and `s` from `width` places after it on; all of `s`
/// and nothing where there is no index.
pub open spec fn split_once(s: Seq<char>, at: Option<int>, width: int) -> (
    Seq<char>,
    Option<Seq<char>>,
) {
    match at {
        Some(i) => (s.take(i), Some(s.skip(i + width))),
        None => (s, None),
    }
}

/// `s`, or the empty sequence where there is none.
pub open spec fn or_empty(s: Option<Seq<char>>) -> Seq<char> {
    match s {
        Some(t) => t,
        None => Seq::empty(),
    }
}

/// The user-info and the host-with-port of an authority. With one `@` or more,
/// the user-info is what stands before the first and the host-with-port is
/// what stands between the first and the second (or the end).
pub open spec fn split_authority(authority: Seq<char>) -> (Option<Seq<char>>, Seq<char>) {
    match first_index(authority, '@') {
        Some(i) => {
            let after = authority.skip(i + 1);
            (Some(authority.take(i)), split_once(after, first_index(after, '@'), 1).0)
        },
        None => (None, authority),
    }
}

/// The port that the text after the `:` writes: a decimal number of at most
/// 65535, and 0 for any other text.
pub open spec fn port_of(text: Seq<char>) -> u16 {
    match parse_unsigned(text, 10, 0xFFFF) {
        Some(n) => n as u16,
        None => 0,
    }
}

/// The parts of the URL `s`. The scheme ends at the first `://`; the authority
/// ends at the first `/` after it; the fragment starts after the last `#` of
/// what follows, and the query after the last `?` before the fragment. The path
/// starts with `/`, also where the URL has none.
pub open spec fn parse_url(s: Seq<char>) -> UrlView {
    let (scheme, rest) = split_once(s, first_occurrence(s, scheme_separator()), 3);
    let (authority, tail) = split_once(or_empty(rest), first_index(or_empty(rest), '/'), 1);
    let beyond = seq!['/'] + or_empty(tail);
    let (user_info, host_port) = split_authority(authority);
    let (domain, port_text) = split_once(host_port, first_index(host_port, ':'), 1);
    let (before_fragment, fragment) = split_once(beyond, last_index(beyond, '#'), 1);
    let (path, query) = split_once(before_fragment, last_index(before_fragment, '?'), 1);
    UrlView {
        scheme,
        user_info,
        domain,
        port: match port_text {
            Some(t) => Some(port_of(t)),
            None => None,
        },
        path,
        query,
        fragment,
    }
}

/// The pieces of `s` between the occurrences of `sep`, searched from the left.
pub open spec fn split_all(s: Seq<char>, sep: char) -> Seq<Seq<char>>
    decreases s.len(),
{
    match first_index(s, sep) {
        Some(i) => if 0 <= i < s.len() {
            seq![s.take(i)] + split_all(s.skip(i + 1), sep)
        } else {
            seq![s]
        },
        None => seq![s],
    }
}

/// The name and the value of one piece of a query: what stands before and
/// after its first `=`, and an empty value where it has none.
pub open spec fn query_pair(piece: Seq<char>) -> Pair {
    let (key, value) = split_once(piece, first_index(piece, '='), 1);
    (key, or_empty(value))
}

/// The pairs of a query, in the order in which they are written.
pub open spec fn query_pairs_of(query: Seq<char>) -> Seq<Pair> {
    split_all(query, '&').map_values(|piece: Seq<char>| query_pair(piece))
}

/// The mapping that a query stands for: its pairs put in turn, so that the
/// last value of a name wins.
pub open spec fn query_entries(query: Option<Seq<char>>) -> Seq<Pair> {
    match query {
        Some(q) => put_all(Seq::empty(), query_pairs_of(q)),
        None => Seq::empty(),
    }
}

/// A parsed absolute URL.
#[derive(Debug)]
pub struct Url {
    pub scheme: String,
    pub user_info: Option<String>,
    pub domain: String,
    pub port: Option<u16>,
    pub path: String,
    pub query: Option<String>,
    pub fragment: Option<String>,
}

/// The characters of an optional string.
pub open spec fn option_view(s: Option<String>) -> Option<Seq<char>> {
    match s {
        Some(t) => Some(t@),
        None => None,
    }
}

impl View for Url {
    type V = UrlView;

    open spec fn view(&self) -> UrlView {
        UrlView {
            scheme: self.scheme@,
            user_info: option_view(self.user_info),
            domain: self.domain@,
            port: self.port,
            path: self.path@,
            query: option_view(self.query),
            fragment: option_view(self.fragment),
        }
    }
}

/// The characters of an optional slice.
pub open spec fn option_chars(s: Option<&[char]>) -> Option<Seq<char>> {
    match s {
        Some(t) => Some(t@),
        None => None,
    }
}

/// Splits `s` at index `at`, dropping `width` places from there.
fn split_at_index<'a>(s: &'a [char], at: Option<usize>, width: usize) -> (r: (
    &'a [char],
    Option<&'a [char]>,
))
    requires
        at is Some ==> at->0 + width <= s@.len(),
    ensures
        (r.0@, option_chars(r.1)) == split_once(s@, as_index(at), width as int),
{
    let n: usize = s.len();
    match at {
        Some(i) => (slice_subrange(s, 0, i), Some(slice_subrange(s, i + width, n))),
        None => {
            (s, None)
        },
    }
}

/// A string with the characters of `s`.
fn text_of(s: &[char]) -> (r: String)
    ensures
        r@ == s@,
{
    let r = string_of(s, 0, s.len());
    assert(s@.subrange(0, s@.len() as int) =~= s@);
    r
}

/// A string with the characters of `s`, where there is one.
fn optional_text_of(s: Option<&[char]>) -> (r: Option<String>)
    ensures
        option_view(r) == option_chars(s),
{
    match s {
        Some(t) => Some(text_of(t)),
        None => None,
    }
}

impl Url {
    /// Parses an absolute URL. Every text is accepted: a part that is missing
    /// comes out empty or absent, and the path is `/` where the URL has none.
    pub fn parse(url: &str) -> (r: Url)
        ensures
            r@ == parse_url(url@),
            r.wf(),
    {
        let chars = chars_of(url);
        let separator: Vec<char> = vec![':', '/', '/'];
        assert(separator@ =~= scheme_separator());
        let (scheme, rest) = split_at_index(
            chars.as_slice(),
            find(chars.as_slice(), separator.as_slice()),
            3,
        );
        let empty: Vec<char> = Vec::new();
        let rest: &[char] = match rest {
            Some(t) => t,
            None => empty.as_slice(),
        };
        let (authority, tail) = split_at_index(rest, find_char(rest, '/'), 1);
        let mut beyond: Vec<char> = vec!['/'];
        match tail {
            Some(t) => {
                let mut i: usize = 0;
                while i < t.len()
                    invariant
                        i <= t@.len(),
                        beyond@ == seq!['/'] + t@.take(i as int),
                    decreases t@.len() - i,
                {
                    beyond.push(t[i]);
                    i += 1;
                    assert(beyond@ =~= seq!['/'] + t@.take(i as int));
                }
                assert(t@.take(t@.len() as int) =~= t@);
            },
            None => {
                assert(beyond@ =~= seq!['/'] + Seq::<char>::empty());
            },
        }
        let authority_len: usize = authority.len();
        let (user_info, host_port) = match find_char(authority, '@') {
            Some(i) => {
                let after = slice_subrange(authority, i + 1, authority_len);
                let (host_port, _) = split_at_index(after, find_char(after, '@'), 1);
                (Some(slice_subrange(authority, 0, i)), host_port)
            },
            None => (None, authority),
        };
        let (domain, port_text) = split_at_index(host_port, find_char(host_port, ':'), 1);
        let port: Option<u16> = match port_text {
            Some(t) => match read_unsigned(t, 10, 0xFFFF) {
                Some(n) => Some(n as u16),
                None => Some(0),
            },
            None => None,
        };
        let (before_fragment, fragment) = split_at_index(
            beyond.as_slice(),
            rfind_char(beyond.as_slice(), '#'),
            1,
        );
        let (path, query) = split_at_index(before_fragment, rfind_char(before_fragment, '?'), 1);
        proof {
            lemma_path_starts_with_slash(url@);
        }
        Url {
            scheme: text_of(scheme),
            user_info: optional_text_of(user_info),
            domain: text_of(domain),
            port,
            path: text_of(path),
            query: optional_text_of(query),
            fragment: optional_text_of(fragment),
        }
    }

    /// Well-formedness: the path starts with `/`.
    pub open spec fn wf(&self) -> bool {
        self.path@.len() > 0 && self.path@[0] == '/'
    }

    /// Whether the scheme is `https`.
    pub fn is_https(&self) -> (r: bool)
        ensures
            r == (self.scheme@ == "https"@),
    {
        self.scheme == "https".to_owned()
    }

    /// The host name.
    pub fn host(&self) -> (r: String)
        ensures
            r@ == self.domain@,
    {
        self.domain.clone()
    }

    /// The port, or 443 where the URL names none.
    pub fn port(&self) -> (r: u16)
        ensures
            r == match self.port {
                Some(p) => p,
                None => DEFAULT_PORT,
            },
    {
        match self.port {
            Some(p) => p,
            None => DEFAULT_PORT,
        }
    }

    /// The path.
    pub fn path(&self) -> (r: String)
        ensures
            r@ == self.path@,
    {
        self.path.clone()
    }

    /// The query, without its `?`.
    pub fn query(&self) -> (r: Option<String>)
        ensures
            option_view(r) == option_view(self.query),
    {
        match &self.query {
            Some(q) => Some(q.clone()),
            None => None,
        }
    }

    /// The fragment, without its `#`.
    pub fn fragment(&self) -> (r: Option<String>)
        ensures
            option_view(r) == option_view(self.fragment),
    {
        match &self.fragment {
            Some(f) => Some(f.clone()),
            None => None,
        }
    }

    /// The query as a mapping: it is split at each `&`, and each piece at its
    /// first `=`. Where a name occurs more than once, its last value stays, at
    /// the place of its first occurrence.
    pub fn query_pairs(&self) -> (m: HeaderMap)
        ensures
            m.entries() == query_entries(option_view(self.query)),
            m.wf(),
    {
        let mut m = HeaderMap::new();
        match &self.query {
            None => {},
            Some(q) => {
                let chars = chars_of(q.as_str());
                let mut rest: &[char] = chars.as_slice();
                let ghost target = query_entries(Some(q@));
                loop
                    invariant_except_break
                        put_all(m.entries(), query_pairs_of(rest@)) == target,
                    invariant
                        m.wf(),
                    ensures
                        m.entries() == target,
                        m.wf(),
                    decreases rest@.len(),
                {
                    let (piece, next) = split_at_index(rest, find_char(rest, '&'), 1);
                    let (key, value) = split_at_index(piece, find_char(piece, '='), 1);
                    let value: String = match value {
                        Some(v) => text_of(v),
                        None => String::new(),
                    };
                    proof {
                        lemma_query_pairs_unfold(rest@);
                        let pairs = query_pairs_of(rest@);
                        assert(pairs[0] == query_pair(piece@));
                        assert(query_pair(piece@) == (key@, value@));
                        if next is None {
                            assert(pairs.drop_first() =~= Seq::<Pair>::empty());
                            assert(put_all(put(m.entries(), key@, value@), pairs.drop_first())
                                == put(m.entries(), key@, value@));
                        }
                    }
                    m.insert(text_of(key), value);
                    match next {
                        Some(n) => {
                            rest = n;
                        },
                        None => {
                            break ;
                        },
                    }
                }
            },
        }
        m
    }
}

/// The pairs of a query are the pair of its first piece, then the pairs of
/// what follows the first `&`.
pub proof fn lemma_query_pairs_unfold(q: Seq<char>)
    ensures
        query_pairs_of(q).len() > 0,
        query_pairs_of(q)[0] == query_pair(split_once(q, first_index(q, '&'), 1).0),
        query_pairs_of(q).drop_first() == match split_once(q, first_index(q, '&'), 1).1 {
            Some(rest) => query_pairs_of(rest),
            None => Seq::<Pair>::empty(),
        },
        first_index(q, '&') is Some ==> 0 <= first_index(q, '&')->0 < q.len(),
{
    lemma_first_index_from(q, '&', 0);
    let pieces = split_all(q, '&');
    match first_index(q, '&') {
        Some(i) => {
            let rest = q.skip(i + 1);
            assert(pieces == seq![q.take(i)] + split_all(rest, '&'));
            assert(pieces.drop_first() =~= split_all(rest, '&'));
            assert(query_pairs_of(q).drop_first() =~= query_pairs_of(rest));
        },
        None => {
            assert(query_pairs_of(q).drop_first() =~= Seq::<Pair>::empty());
        },
    }
}

/// A name that occurs more than once in a query has its last value: the
/// mapping of a query gives each name the value of the last pair that is named
/// so, nothing to a name that no pair has, and holds no name twice.
pub proof fn lemma_query_last_value_wins(query: Seq<char>, key: Seq<char>)
    ensures
        lookup(query_entries(Some(query)), key) == last_value(query_pairs_of(query), key),
        distinct_keys(query_entries(Some(query))),
{
    lemma_put_all_last_wins(Seq::empty(), query_pairs_of(query), key);
}

/// The path of every parsed URL starts with `/`.
pub proof fn lemma_path_starts_with_slash(s: Seq<char>)
    ensures
        parse_url(s).path.len() > 0,
        parse_url(s).path[0] == '/',
{
    let (scheme, rest) = split_once(s, first_occurrence(s, scheme_separator()), 3);
    let (authority, tail) = split_once(or_empty(rest), first_index(or_empty(rest), '/'), 1);
    let beyond = seq!['/'] + or_empty(tail);
    assert(beyond[0] == '/');
    lemma_last_index_upto(beyond, '#', beyond.len() as int);
    let (before_fragment, fragment) = split_once(beyond, last_index(beyond, '#'), 1);
    assert(before_fragment.len() > 0 && before_fragment[0] == '/');
    lemma_last_index_upto(before_fragment, '?', before_fragment.len() as int);
}

} // verus!
