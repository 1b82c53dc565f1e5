//! A URL that is written from its parts parses back into those parts.

use crate::number::{decimal, is_digit_in, lemma_decimal_digits, lemma_parse_decimal};
use crate::text::{
    first_index, first_occurrence, free_of, last_index, lemma_first_index_is,
    lemma_first_index_none, lemma_first_occurrence_is, lemma_last_index_is,
    lemma_last_index_none, occurs_at,
};
use crate::url::{parse_url, port_of, scheme_separator, split_authority, split_once, UrlView};
use vstd::prelude::*;

verus! {

/// `c` with `s` behind it, or nothing where there is no `s`.
pub open spec fn with_mark(c: char, s: Option<Seq<char>>) -> Seq<char> {
    match s {
        Some(t) => seq![c] + t,
        None => Seq::empty(),
    }
}

/// `s` with `c` behind it, or nothing where there is no `s`.
pub open spec fn before_mark(s: Option<Seq<char>>, c: char) -> Seq<char> {
    match s {
        Some(t) => t + seq![c],
        None => Seq::empty(),
    }
}

/// The port as it is written in a URL.
pub open spec fn port_text(port: Option<u16>) -> Option<Seq<char>> {
    match port {
        Some(p) => Some(decimal(p as nat)),
        None => None,
    }
}

/// The authority of a URL: the user-info with `@`, the host, and the port
/// with `:`.
pub open spec fn authority_text(parts: UrlView) -> Seq<char> {
    before_mark(parts.user_info, '@') + parts.domain + with_mark(':', port_text(parts.port))
}

/// What follows the authority: the path, the query with `?`, and the fragment
/// with `#`.
pub open spec fn tail_text(parts: UrlView) -> Seq<char> {
    parts.path + with_mark('?', parts.query) + with_mark('#', parts.fragment)
}

/// The URL that is written from `parts`.
pub open spec fn url_text(parts: UrlView) -> Seq<char> {
    parts.scheme + scheme_separator() + authority_text(parts) + tail_text(parts)
}

/// The URL that is written from the scheme and the authority of `parts`
/// alone.
pub open spec fn bare_url_text(parts: UrlView) -> Seq<char> {
    parts.scheme + scheme_separator() + authority_text(parts)
}

/// Whether no part holds a character that would end it early: the scheme has
/// no `:`, the user-info no `@` and no `/`, the host none of `@`, `/`, `:`.
pub open spec fn clean_authority(parts: UrlView) -> bool {
    &&& free_of(parts.scheme, ':')
    &&& match parts.user_info {
        Some(u) => free_of(u, '@') && free_of(u, '/'),
        None => true,
    }
    &&& free_of(parts.domain, '@')
    &&& free_of(parts.domain, '/')
    &&& free_of(parts.domain, ':')
}

/// Whether the path starts with `/` and has no `?` and no `#`, the query has
/// no `?` and no `#`, and the fragment has no `#`.
pub open spec fn clean_tail(parts: UrlView) -> bool {
    &&& parts.path.len() > 0
    &&& parts.path[0] == '/'
    &&& free_of(parts.path, '?')
    &&& free_of(parts.path, '#')
    &&& match parts.query {
        Some(q) => free_of(q, '?') && free_of(q, '#'),
        None => true,
    }
    &&& match parts.fragment {
        Some(f) => free_of(f, '#'),
        None => true,
    }
}

/// A decimal number holds none of `/`, `@`, `:`.
proof fn lemma_decimal_is_clean(n: nat)
    ensures
        free_of(decimal(n), '/'),
        free_of(decimal(n), '@'),
        free_of(decimal(n), ':'),
{
    lemma_decimal_digits(n);
    let d = decimal(n);
    assert forall|i: int| 0 <= i < d.len() implies d[i] != '/' && d[i] != '@' && d[i] != ':' by {
        assert(is_digit_in(d[i], 10));
    }
}

/// The authority of clean parts holds no `/`.
proof fn lemma_authority_has_no_slash(parts: UrlView)
    requires
        clean_authority(parts),
    ensures
        free_of(authority_text(parts), '/'),
{
    let a = authority_text(parts);
    let user = before_mark(parts.user_info, '@');
    let port = with_mark(':', port_text(parts.port));
    if let Some(p) = parts.port {
        lemma_decimal_is_clean(p as nat);
    }
    assert forall|i: int| 0 <= i < a.len() implies a[i] != '/' by {
        if i < user.len() {
            assert(a[i] == user[i]);
            let u = parts.user_info->0;
            if i < u.len() {
                assert(user[i] == u[i]);
            }
        } else if i < user.len() + parts.domain.len() {
            assert(a[i] == parts.domain[i - user.len()]);
        } else {
            let k = i - user.len() - parts.domain.len();
            assert(a[i] == port[k]);
            let p = parts.port->0;
            if k > 0 {
                assert(port[k] == decimal(p as nat)[k - 1]);
            }
        }
    }
}

/// The authority written from clean parts splits into its user-info, host and
/// port.
proof fn lemma_authority_parses(parts: UrlView)
    requires
        clean_authority(parts),
    ensures
        split_authority(authority_text(parts)).0 == parts.user_info,
        split_once(
            split_authority(authority_text(parts)).1,
            first_index(split_authority(authority_text(parts)).1, ':'),
            1,
        ).0 == parts.domain,
        match split_once(
            split_authority(authority_text(parts)).1,
            first_index(split_authority(authority_text(parts)).1, ':'),
            1,
        ).1 {
            Some(t) => parts.port == Some(port_of(t)),
            None => parts.port is None,
        },
{
    let a = authority_text(parts);
    let port = with_mark(':', port_text(parts.port));
    let host_port = parts.domain + port;
    if let Some(p) = parts.port {
        lemma_decimal_is_clean(p as nat);
        lemma_parse_decimal(p as nat, 0xFFFF);
    }
    assert forall|i: int| 0 <= i < host_port.len() implies host_port[i] != '@' by {
        if i < parts.domain.len() {
            assert(host_port[i] == parts.domain[i]);
        } else {
            let k = i - parts.domain.len();
            assert(host_port[i] == port[k]);
            if k > 0 {
                assert(port[k] == decimal(parts.port->0 as nat)[k - 1]);
            }
        }
    }
    match parts.user_info {
        Some(u) => {
            assert(a =~= u + seq!['@'] + host_port);
            assert(a[u.len() as int] == '@');
            assert forall|j: int| 0 <= j < u.len() implies a[j] != '@' by {
                assert(a[j] == u[j]);
            }
            lemma_first_index_is(a, '@', u.len() as int);
            assert(a.take(u.len() as int) =~= u);
            assert(a.skip(u.len() as int + 1) =~= host_port);
            lemma_first_index_none(host_port, '@');
        },
        None => {
            assert(a =~= host_port);
            lemma_first_index_none(a, '@');
        },
    }
    assert(split_authority(a).1 == host_port);
    match parts.port {
        Some(p) => {
            let n = parts.domain.len() as int;
            assert(host_port[n] == ':');
            assert forall|j: int| 0 <= j < n implies host_port[j] != ':' by {
                assert(host_port[j] == parts.domain[j]);
            }
            lemma_first_index_is(host_port, ':', n);
            assert(host_port.take(n) =~= parts.domain);
            assert(host_port.skip(n + 1) =~= decimal(p as nat));
        },
        None => {
            assert(host_port =~= parts.domain);
            lemma_first_index_none(host_port, ':');
        },
    }
}

/// The text after the authority, written from clean parts, splits into its
/// path, query and fragment.
proof fn lemma_tail_parses(parts: UrlView)
    requires
        clean_tail(parts),
    ensures
        ({
            let beyond = tail_text(parts);
            let (before_fragment, fragment) = split_once(beyond, last_index(beyond, '#'), 1);
            let (path, query) = split_once(before_fragment, last_index(before_fragment, '?'), 1);
            path == parts.path && query == parts.query && fragment == parts.fragment
        }),
{
    let beyond = tail_text(parts);
    let q = with_mark('?', parts.query);
    let before = parts.path + q;
    assert forall|i: int| 0 <= i < before.len() implies before[i] != '#' by {
        if i < parts.path.len() {
            assert(before[i] == parts.path[i]);
        } else {
            let k = i - parts.path.len();
            assert(before[i] == q[k]);
            if k > 0 {
                assert(q[k] == parts.query->0[k - 1]);
            }
        }
    }
    match parts.fragment {
        Some(f) => {
            let n = before.len() as int;
            assert(beyond =~= before + seq!['#'] + f);
            assert(beyond[n] == '#');
            assert forall|j: int| n < j < beyond.len() implies beyond[j] != '#' by {
                assert(beyond[j] == f[j - n - 1]);
            }
            lemma_last_index_is(beyond, '#', n);
            assert(beyond.take(n) =~= before);
            assert(beyond.skip(n + 1) =~= f);
        },
        None => {
            assert(beyond =~= before);
            lemma_last_index_none(beyond, '#');
        },
    }
    match parts.query {
        Some(text) => {
            let n = parts.path.len() as int;
            assert(before =~= parts.path + seq!['?'] + text);
            assert(before[n] == '?');
            assert forall|j: int| n < j < before.len() implies before[j] != '?' by {
                assert(before[j] == text[j - n - 1]);
            }
            lemma_last_index_is(before, '?', n);
            assert(before.take(n) =~= parts.path);
            assert(before.skip(n + 1) =~= text);
        },
        None => {
            assert(before =~= parts.path);
            lemma_last_index_none(before, '?');
        },
    }
}

/// The scheme of a URL written from clean parts ends at its first `://`.
proof fn lemma_scheme_parses(parts: UrlView, after: Seq<char>)
    requires
        free_of(parts.scheme, ':'),
    ensures
        split_once(
            parts.scheme + scheme_separator() + after,
            first_occurrence(parts.scheme + scheme_separator() + after, scheme_separator()),
            3,
        ) == (parts.scheme, Some(after)),
{
    let s = parts.scheme + scheme_separator() + after;
    let n = parts.scheme.len() as int;
    assert(s.subrange(n, n + 3) =~= scheme_separator());
    assert forall|j: int| 0 <= j < n implies !occurs_at(s, scheme_separator(), j) by {
        if j + 3 <= s.len() {
            assert(s.subrange(j, j + 3)[0] == parts.scheme[j]);
            assert(scheme_separator()[0] == ':');
        }
    }
    lemma_first_occurrence_is(s, scheme_separator(), n);
    assert(s.take(n) =~= parts.scheme);
    assert(s.skip(n + 3) =~= after);
}

/// Parsing gives back the parts that a URL was written from: for
/// `scheme://user@host:port/path?query#fragment` with clean parts, with or
/// without user-info, port, query and fragment, the parsed URL holds exactly
/// those parts.
pub proof fn lemma_parse_written_url(parts: UrlView)
    requires
        clean_authority(parts),
        clean_tail(parts),
    ensures
        parse_url(url_text(parts)) == parts,
{
    let a = authority_text(parts);
    let t = tail_text(parts);
    let rest = a + t;
    assert(url_text(parts) =~= parts.scheme + scheme_separator() + rest);
    lemma_scheme_parses(parts, rest);
    lemma_authority_has_no_slash(parts);
    let n = a.len() as int;
    assert(t[0] == parts.path[0]);
    assert(rest[n] == '/');
    assert forall|j: int| 0 <= j < n implies rest[j] != '/' by {
        assert(rest[j] == a[j]);
    }
    lemma_first_index_is(rest, '/', n);
    assert(rest.take(n) =~= a);
    assert(seq!['/'] + rest.skip(n + 1) =~= t);
    lemma_authority_parses(parts);
    lemma_tail_parses(parts);
}

/// A URL without a path has the path `/`, and neither query nor fragment:
/// for `scheme://user@host:port` with clean parts, with or without user-info
/// and port, the parsed URL holds those parts and that path.
pub proof fn lemma_parse_written_bare_url(parts: UrlView)
    requires
        clean_authority(parts),
    ensures
        parse_url(bare_url_text(parts)) == (UrlView {
            path: seq!['/'],
            query: None,
            fragment: None,
            ..parts
        }),
{
    let a = authority_text(parts);
    lemma_scheme_parses(parts, a);
    lemma_authority_has_no_slash(parts);
    lemma_first_index_none(a, '/');
    lemma_authority_parses(parts);
    let beyond = seq!['/'] + Seq::<char>::empty();
    assert(beyond =~= seq!['/']);
    lemma_last_index_none(beyond, '#');
    lemma_last_index_none(beyond, '?');
}

} // verus!
