//! Requests and the text that goes on the wire for them.

use crate::header_map::{distinct_keys, HeaderMap, Pair};
use crate::number::{decimal, push_decimal};
use crate::url::{parse_url, query_entries, Url, UrlView, DEFAULT_PORT};
use vstd::prelude::*;
use vstd::string::StringExecFns;
use vstd::utf8::encode_utf8;

verus! {

/// The pairs of `entries` written as name, `mid`, value, with `sep` between
/// two pairs.
pub open spec fn joined(entries: Seq<Pair>, mid: Seq<char>, sep: Seq<char>) -> Seq<char>
    decreases entries.len(),
{
    if entries.len() == 0 {
        Seq::empty()
    } else if entries.len() == 1 {
        entries[0].0 + mid + entries[0].1
    } else {
        joined(entries.drop_last(), mid, sep) + sep + entries.last().0 + mid + entries.last().1
    }
}

/// The text of a GET request: the request line with the path, a `?` and the
/// query pairs joined by `&`; the `Host` line; one line for each header; and
/// the empty line that ends the head.
pub open spec fn get_text(
    path: Seq<char>,
    query: Seq<Pair>,
    host: Seq<char>,
    headers: Seq<Pair>,
) -> Seq<char> {
    "GET "@ + path + "?"@ + joined(query, "="@, "&"@) + " HTTP/1.1\r\nHost: "@ + host + "\r\n"@
        + joined(headers, ": "@, "\r\n"@) + "\r\n\r\n"@
}

/// The text of a POST request: the request line with the path alone; the
/// `Host` line; one line for each header; `Content-Length` with the number of
/// bytes of the body; the empty line; and the body.
pub open spec fn post_text(
    path: Seq<char>,
    host: Seq<char>,
    headers: Seq<Pair>,
    body: Seq<char>,
) -> Seq<char> {
    "POST "@ + path + " HTTP/1.1\r\nHost: "@ + host + "\r\n"@ + joined(headers, ": "@, "\r\n"@)
        + "\r\nContent-Length: "@ + decimal(encode_utf8(body).len()) + "\r\n\r\n"@ + body
}

/// What a request holds, as mathematical values.
pub struct RequestView {
    pub url: UrlView,
    pub host: Seq<char>,
    pub port: u16,
    pub path: Seq<char>,
    pub query: Seq<Pair>,
    pub headers: Seq<Pair>,
    pub text: Seq<char>,
}

/// The request for `url` with `headers`, before its text is written.
pub open spec fn new_request(url: Seq<char>, headers: Seq<Pair>) -> RequestView {
    let parts = parse_url(url);
    RequestView {
        url: parts,
        host: parts.domain,
        port: match parts.port {
            Some(p) => p,
            None => DEFAULT_PORT,
        },
        path: parts.path,
        query: query_entries(parts.query),
        headers,
        text: Seq::empty(),
    }
}

/// One request: where it goes, its headers, and the text to send.
pub struct HttpRequest {
    pub url: Url,
    pub host: String,
    pub port: u16,
    pub path: String,
    pub query: HeaderMap,
    pub headers: HeaderMap,
    request: String,
}

impl View for HttpRequest {
    type V = RequestView;

    closed spec fn view(&self) -> RequestView {
        RequestView {
            url: self.url@,
            host: self.host@,
            port: self.port,
            path: self.path@,
            query: self.query.entries(),
            headers: self.headers.entries(),
            text: self.request@,
        }
    }
}

/// Appends the pairs of `map` to `out`, as `joined` writes them.
fn append_joined(out: &mut String, map: &HeaderMap, mid: &str, sep: &str)
    ensures
        final(out)@ == old(out)@ + joined(map.entries(), mid@, sep@),
{
    let ghost start = out@;
    let n: usize = map.len();
    let mut i: usize = 0;
    assert(map.entries().take(0) =~= Seq::<Pair>::empty());
    assert(start + Seq::<char>::empty() =~= start);
    while i < n
        invariant
            i <= n == map.entries().len(),
            out@ == start + joined(map.entries().take(i as int), mid@, sep@),
        decreases n - i,
    {
        if i > 0 {
            out.append(sep);
        }
        out.append(map.key_at(i).as_str());
        out.append(mid);
        out.append(map.value_at(i).as_str());
        proof {
            let now = map.entries().take(i + 1);
            assert(now.drop_last() =~= map.entries().take(i as int));
            assert(now.last() == map.entries()[i as int]);
            assert(out@ =~= start + joined(now, mid@, sep@));
        }
        i += 1;
    }
    assert(map.entries().take(n as int) =~= map.entries());
}

impl HttpRequest {
    /// The request for `url` with `headers`. Its text is empty until `get` or
    /// `post` writes it.
    pub fn new(url: &str, headers: HeaderMap) -> (r: HttpRequest)
        ensures
            r@ == new_request(url@, headers.entries()),
            r@.path.len() > 0 && r@.path[0] == '/',
            distinct_keys(r@.query),
    {
        let url = Url::parse(url);
        let host = url.host();
        let port = url.port();
        let path = url.path();
        let query = url.query_pairs();
        HttpRequest { url, host, port, path, query, headers, request: String::new() }
    }

    /// Writes the text of a GET request.
    pub fn get(&mut self) -> (r: &mut HttpRequest)
        ensures
            r@ == (RequestView {
                text: get_text(
                    old(self)@.path,
                    old(self)@.query,
                    old(self)@.host,
                    old(self)@.headers,
                ),
                ..old(self)@
            }),
            *final(r) == *final(self),
    {
        let mut text = String::new();
        text.append("GET ");
        text.append(self.path.as_str());
        text.append("?");
        append_joined(&mut text, &self.query, "=", "&");
        text.append(" HTTP/1.1\r\nHost: ");
        text.append(self.host.as_str());
        text.append("\r\n");
        append_joined(&mut text, &self.headers, ": ", "\r\n");
        text.append("\r\n\r\n");
        assert(text@ =~= get_text(self@.path, self@.query, self@.host, self@.headers));
        self.request = text;
        self
    }

    /// Writes the text of a POST request with `body`.
    pub fn post(&mut self, body: &str) -> (r: &mut HttpRequest)
        ensures
            r@ == (RequestView {
                text: post_text(old(self)@.path, old(self)@.host, old(self)@.headers, body@),
                ..old(self)@
            }),
            *final(r) == *final(self),
    {
        let mut text = String::new();
        text.append("POST ");
        text.append(self.path.as_str());
        text.append(" HTTP/1.1\r\nHost: ");
        text.append(self.host.as_str());
        text.append("\r\n");
        append_joined(&mut text, &self.headers, ": ", "\r\n");
        text.append("\r\nContent-Length: ");
        push_decimal(&mut text, body.as_bytes().len() as u64);
        text.append("\r\n\r\n");
        text.append(body);
        assert(text@ =~= post_text(self@.path, self@.host, self@.headers, body@));
        self.request = text;
        self
    }

    /// The text to send.
    pub fn text(&self) -> (r: &str)
        ensures
            r@ == self@.text,
    {
        self.request.as_str()
    }

    /// The bytes to send: the text in UTF-8.
    pub fn as_bytes(&self) -> (r: &[u8])
        ensures
            r@ == encode_utf8(self@.text),
    {
        self.request.as_str().as_bytes()
    }
}

} // verus!
