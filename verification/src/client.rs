//! The client: a set of headers, and the requests made with them.

use crate::header_map::{lemma_key_index_from, put, HeaderMap, Pair};
use crate::request::{get_text, new_request, post_text, HttpRequest, RequestView};
use vstd::prelude::*;
use vstd::string::StringExecFns;

verus! {

/// The headers that every client starts with.
pub open spec fn default_entries() -> Seq<Pair> {
    seq![("User-Agent"@, "Rust"@), ("Accept"@, "*/*"@), ("Connection"@, "close"@)]
}

/// The headers that every client starts with.
pub fn default_headers() -> (headers: HeaderMap)
    ensures
        headers.entries() == default_entries(),
        headers.wf(),
{
    let mut headers = HeaderMap::new();
    proof {
        reveal_strlit("User-Agent");
        reveal_strlit("Accept");
        reveal_strlit("Connection");
        assert("User-Agent"@.len() == 10 && "Accept"@.len() == 6 && "Connection"@.len() == 10);
        assert("User-Agent"@[0] == 'U' && "Connection"@[0] == 'C');
    }
    proof {
        lemma_key_index_from(headers.entries(), "User-Agent"@, 0);
    }
    headers.insert("User-Agent".to_owned(), "Rust".to_owned());
    assert(headers.entries() =~= seq![("User-Agent"@, "Rust"@)]);
    proof {
        lemma_key_index_from(headers.entries(), "Accept"@, 0);
    }
    headers.insert("Accept".to_owned(), "*/*".to_owned());
    assert(headers.entries() =~= seq![("User-Agent"@, "Rust"@), ("Accept"@, "*/*"@)]);
    proof {
        lemma_key_index_from(headers.entries(), "Connection"@, 0);
    }
    headers.insert("Connection".to_owned(), "close".to_owned());
    assert(headers.entries() =~= default_entries());
    headers
}

/// A client: the headers that its requests carry.
pub struct HttpClient {
    /// An address kept for the caller; no request reads it.
    pub url: String,
    /// The headers of every request: the defaults and what was set since.
    pub headers: HeaderMap,
}

impl HttpClient {
    /// A client with the default headers.
    pub fn new() -> (client: HttpClient)
        ensures
            client.url@ == Seq::<char>::empty(),
            client.headers.entries() == default_entries(),
            client.headers.wf(),
    {
        HttpClient { url: String::new(), headers: default_headers() }
    }

    /// Gives the header `key` the value `value`, in place of the one it had.
    pub fn set_header(&mut self, key: &str, value: &str) -> (r: &mut HttpClient)
        ensures
            r.headers.entries() == put(old(self).headers.entries(), key@, value@),
            r.headers@ == old(self).headers@.insert(key@, value@),
            old(self).headers.wf() ==> r.headers.wf(),
            r.url == old(self).url,
            *final(r) == *final(self),
    {
        self.headers.insert(key.to_owned(), value.to_owned());
        self
    }

    /// Sets `Authorization` to `Bearer`, a space and the token.
    pub fn header_authorization(&mut self, token: String) -> (r: &mut HttpClient)
        ensures
            r.headers.entries() == put(
                old(self).headers.entries(),
                "Authorization"@,
                "Bearer "@ + token@,
            ),
            r.headers@ == old(self).headers@.insert("Authorization"@, "Bearer "@ + token@),
            old(self).headers.wf() ==> r.headers.wf(),
            r.url == old(self).url,
            *final(r) == *final(self),
    {
        let mut value = "Bearer ".to_owned();
        value.append(token.as_str());
        self.headers.insert("Authorization".to_owned(), value);
        self
    }

    /// The GET request for `url` with the headers of this client, its text
    /// written. The client stays as it is.
    pub fn get_request(&self, url: &str) -> (request: HttpRequest)
        ensures
            request@ == (RequestView {
                text: get_text(
                    new_request(url@, self.headers.entries()).path,
                    new_request(url@, self.headers.entries()).query,
                    new_request(url@, self.headers.entries()).host,
                    self.headers.entries(),
                ),
                ..new_request(url@, self.headers.entries())
            }),
    {
        let mut request = HttpRequest::new(url, self.headers.clone());
        request.get();
        request
    }

    /// The POST request for `url` with the headers of this client and `body`,
    /// its text written. The client stays as it is.
    pub fn post_request(&self, url: &str, body: &str) -> (request: HttpRequest)
        ensures
            request@ == (RequestView {
                text: post_text(
                    new_request(url@, self.headers.entries()).path,
                    new_request(url@, self.headers.entries()).host,
                    self.headers.entries(),
                    body@,
                ),
                ..new_request(url@, self.headers.entries())
            }),
    {
        let mut request = HttpRequest::new(url, self.headers.clone());
        request.post(body);
        request
    }
}

} // verus!
