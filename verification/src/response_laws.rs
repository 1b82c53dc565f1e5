//! What holds of every response: the head does not depend on what follows
//! it, a body of an announced length is exactly that long, and a chunked body
//! is the concatenation of its chunks.

use crate::header_map::{put, put_all, Pair};
use crate::response::{
    announces_chunked, chunk_size, chunked_body, colon_space, complete, content_length, crlf,
    head_from, head_of, header_of_line, lemma_line_len, line_len, response_of, Head,
    ResponseError,
};
use crate::status::{status_of_line, StatusCode};
use crate::text::{
    ascii_bytes, ends_with, free_of, lemma_first_occurrence_is, occurs_at, trim_end_matches,
};
use vstd::prelude::*;
use vstd::utf8::{
    decode_utf8, decode_utf8_encode_utf8, encode_utf8, encode_utf8_decode_utf8,
    encode_utf8_valid_utf8, is_ascii_chars, is_ascii_chars_encode_utf8, valid_utf8,
};

verus! {

/// The line feed.
pub open spec fn lf() -> u8 {
    0x0A
}

/// Whether `line` is one whole line: it ends with its only line feed.
pub open spec fn is_line(line: Seq<u8>) -> bool {
    &&& line.len() > 0
    &&& line.last() == lf()
    &&& forall|k: int| 0 <= k < line.len() - 1 ==> line[k] != lf()
}

/// Where `s` holds a whole line at `from`, the line that starts there has its
/// length.
pub proof fn lemma_line_len_is(s: Seq<u8>, from: int, n: int)
    requires
        0 <= from,
        n > 0,
        from + n <= s.len(),
        is_line(s.subrange(from, from + n)),
    ensures
        line_len(s, from) == n,
    decreases n,
{
    let line = s.subrange(from, from + n);
    assert(line[0] == s[from]);
    if n > 1 {
        let rest = s.subrange(from + 1, from + n);
        assert(rest.last() == line.last());
        assert forall|k: int| 0 <= k < rest.len() - 1 implies rest[k] != lf() by {
            assert(rest[k] == line[k + 1]);
        }
        lemma_line_len_is(s, from + 1, n - 1);
    }
}

/// A line that ends before the end of the stream is a whole line.
pub proof fn lemma_line_before_end(s: Seq<u8>, from: int)
    requires
        0 <= from < s.len(),
        from + line_len(s, from) < s.len() || s[from + line_len(s, from) - 1] == lf(),
    ensures
        is_line(s.subrange(from, from + line_len(s, from))),
    decreases s.len() - from,
{
    lemma_line_len(s, from);
    let n = line_len(s, from);
    let line = s.subrange(from, from + n);
    if s[from] != lf() {
        lemma_line_len(s, from + 1);
        lemma_line_before_end(s, from + 1);
        let rest = s.subrange(from + 1, from + n);
        assert(line.last() == rest.last());
        assert forall|k: int| 0 <= k < line.len() - 1 implies line[k] != lf() by {
            if k > 0 {
                assert(line[k] == rest[k - 1]);
            }
        }
    }
}

/// The bytes of a line that reads as a carriage return and a line feed end
/// with a line feed.
pub proof fn lemma_crlf_bytes(line: Seq<u8>)
    requires
        valid_utf8(line),
        decode_utf8(line) == crlf(),
    ensures
        line.len() == 2,
        line[1] == lf(),
{
    decode_utf8_encode_utf8(line);
    is_ascii_chars_encode_utf8(crlf());
}

/// A head that was read does not depend on what follows it in the stream: the
/// header block that goes on at `from` in `a` is the same in `a` with `b`
/// behind it, and it ends within `a`.
pub proof fn lemma_head_from_prefix(
    a: Seq<u8>,
    b: Seq<u8>,
    from: int,
    status: StatusCode,
    headers: Seq<Pair>,
    chunked: bool,
)
    requires
        0 <= from <= a.len(),
        head_from(a, from, status, headers, chunked) is Ok,
    ensures
        head_from(a + b, from, status, headers, chunked) == head_from(
            a,
            from,
            status,
            headers,
            chunked,
        ),
        from < head_from(a, from, status, headers, chunked)->Ok_0.end <= a.len(),
    decreases a.len() - from,
{
    lemma_line_len(a, from);
    let n = line_len(a, from);
    let line = a.subrange(from, from + n);
    let text = decode_utf8(line);
    if text == crlf() {
        lemma_crlf_bytes(line);
        assert(line[1] == a[from + n - 1]);
    } else {
        let next = match header_of_line(text) {
            Some(header) => head_from(
                a,
                from + n,
                status,
                put(headers, header.0, header.1),
                chunked || announces_chunked(header),
            ),
            None => head_from(a, from + n, status, headers, chunked),
        };
        assert(next is Ok);
        assert(from + n < a.len());
    }
    lemma_line_before_end(a, from);
    assert((a + b).subrange(from, from + n) =~= line);
    lemma_line_len_is(a + b, from, n as int);
    if text != crlf() {
        match header_of_line(text) {
            Some(header) => {
                lemma_head_from_prefix(
                    a,
                    b,
                    from + n,
                    status,
                    put(headers, header.0, header.1),
                    chunked || announces_chunked(header),
                );
            },
            None => {
                lemma_head_from_prefix(a, b, from + n, status, headers, chunked);
            },
        }
    }
}

/// The head of a stream does not depend on what follows it: a stream with a
/// whole head has the same head with any bytes behind it.
pub proof fn lemma_head_of_prefix(a: Seq<u8>, b: Seq<u8>)
    requires
        head_of(a) is Ok,
    ensures
        head_of(a + b) == head_of(a),
        0 < head_of(a)->Ok_0.end <= a.len(),
{
    let n = line_len(a, 0);
    let line = a.subrange(0, n as int);
    lemma_line_len(a, 0);
    let status = status_of_line(decode_utf8(line));
    assert(head_from(a, n as int, status, Seq::empty(), false) is Ok);
    assert(n < a.len());
    lemma_line_before_end(a, 0);
    assert((a + b).subrange(0, n as int) =~= line);
    lemma_line_len_is(a + b, 0, n as int);
    lemma_head_from_prefix(a, b, n as int, status, Seq::empty(), false);
}

/// A body of an announced length is read exactly: where `head` is a whole
/// head that announces no chunks and a `Content-Length` of the length of
/// `body`, the stream of `head`, `body` and any `rest` holds the response of
/// that head with that body, whatever `rest` is.
pub proof fn lemma_announced_length(head: Seq<u8>, body: Seq<u8>, rest: Seq<u8>)
    requires
        head_of(head) is Ok,
        head_of(head)->Ok_0.end == head.len(),
        !head_of(head)->Ok_0.chunked,
        content_length(head_of(head)->Ok_0.headers) == Some(body.len() as int),
    ensures
        response_of(head + body + rest) == complete(
            head_of(head)->Ok_0.status,
            head_of(head)->Ok_0.headers,
            Ok(body),
        ),
{
    let s = head + body + rest;
    assert(s =~= head + (body + rest));
    lemma_head_of_prefix(head, body + rest);
    let h = head_of(head)->Ok_0;
    assert(s.subrange(h.end, h.end + body.len()) =~= body);
}

/// One chunk on the wire: the line that announces its size, its payload, and
/// the two bytes that end it.
pub struct Chunk {
    pub size_line: Seq<u8>,
    pub payload: Seq<u8>,
    pub end: Seq<u8>,
}

/// Whether `line` is a whole line that announces the size `size`.
pub open spec fn announces(line: Seq<u8>, size: int) -> bool {
    is_line(line) && valid_utf8(line) && chunk_size(decode_utf8(line)) == Some(size)
}

/// Whether every chunk has a payload, a line that announces its length, and
/// two bytes at its end.
pub open spec fn well_framed(chunks: Seq<Chunk>) -> bool {
    forall|i: int|
        0 <= i < chunks.len() ==> {
            &&& (#[trigger] chunks[i]).payload.len() > 0
            &&& announces(chunks[i].size_line, chunks[i].payload.len() as int)
            &&& chunks[i].end.len() == 2
        }
}

/// The chunks as they stand on the wire.
pub open spec fn framed(chunks: Seq<Chunk>) -> Seq<u8>
    decreases chunks.len(),
{
    if chunks.len() == 0 {
        Seq::empty()
    } else {
        chunks[0].size_line + chunks[0].payload + chunks[0].end + framed(chunks.drop_first())
    }
}

/// The payloads of the chunks, one after the other.
pub open spec fn payloads(chunks: Seq<Chunk>) -> Seq<u8>
    decreases chunks.len(),
{
    if chunks.len() == 0 {
        Seq::empty()
    } else {
        chunks[0].payload + payloads(chunks.drop_first())
    }
}

/// The body of well-framed chunks is the concatenation of their payloads:
/// where `s` holds, from `from` on, the chunks, a line that announces the size
/// 0, and any `rest`, the chunked body after `body` is `body` with the
/// payloads behind it.
pub proof fn lemma_chunked_body_is_payloads(
    s: Seq<u8>,
    from: int,
    body: Seq<u8>,
    chunks: Seq<Chunk>,
    last_line: Seq<u8>,
    rest: Seq<u8>,
)
    requires
        0 <= from <= s.len(),
        well_framed(chunks),
        announces(last_line, 0),
        s.skip(from) == framed(chunks) + last_line + rest,
    ensures
        chunked_body(s, from, body) == Ok::<Seq<u8>, ResponseError>(body + payloads(chunks)),
    decreases chunks.len(),
{
    if chunks.len() == 0 {
        let n = last_line.len() as int;
        assert(s.skip(from) =~= last_line + rest);
        assert(s.subrange(from, from + n) =~= last_line) by {
            assert(s.subrange(from, from + n) =~= s.skip(from).take(n));
        }
        lemma_line_len_is(s, from, n);
        assert(body + payloads(chunks) =~= body);
    } else {
        let c = chunks[0];
        let later = chunks.drop_first();
        let n = c.size_line.len() as int;
        let size = c.payload.len() as int;
        let tail = c.payload + c.end + framed(later) + last_line + rest;
        assert(s.skip(from) =~= c.size_line + tail);
        assert(s.subrange(from, from + n) =~= c.size_line) by {
            assert(s.subrange(from, from + n) =~= s.skip(from).take(n));
        }
        lemma_line_len_is(s, from, n);
        assert(s.subrange(from + n, from + n + size) =~= c.payload) by {
            assert(s.subrange(from + n, from + n + size) =~= s.skip(from).subrange(n, n + size));
        }
        let next = from + n + size + 2;
        assert(s.skip(next) =~= framed(later) + last_line + rest) by {
            assert(s.skip(next) =~= s.skip(from).skip(n + size + 2));
        }
        assert forall|i: int| 0 <= i < later.len() implies {
            &&& (#[trigger] later[i]).payload.len() > 0
            &&& announces(later[i].size_line, later[i].payload.len() as int)
            &&& later[i].end.len() == 2
        } by {
            assert(later[i] == chunks[i + 1]);
        }
        lemma_chunked_body_is_payloads(s, next, body + c.payload, later, last_line, rest);
        assert(body + c.payload + payloads(later) =~= body + payloads(chunks));
    }
}

/// A chunked response decodes to the concatenation of its chunks, wherever
/// the chunks are cut: where `head` is a whole head that announces chunks, the
/// stream of `head`, well-framed chunks, a line that announces the size 0, and
/// any `rest` holds the response of that head with the payloads as its body.
pub proof fn lemma_chunked_response(
    head: Seq<u8>,
    chunks: Seq<Chunk>,
    last_line: Seq<u8>,
    rest: Seq<u8>,
)
    requires
        head_of(head) is Ok,
        head_of(head)->Ok_0.end == head.len(),
        head_of(head)->Ok_0.chunked,
        well_framed(chunks),
        announces(last_line, 0),
    ensures
        response_of(head + framed(chunks) + last_line + rest) == complete(
            head_of(head)->Ok_0.status,
            head_of(head)->Ok_0.headers,
            Ok(payloads(chunks)),
        ),
{
    let s = head + framed(chunks) + last_line + rest;
    let after = framed(chunks) + last_line + rest;
    assert(s =~= head + after);
    lemma_head_of_prefix(head, after);
    assert(s.skip(head.len() as int) =~= after);
    lemma_chunked_body_is_payloads(
        s,
        head.len() as int,
        Seq::empty(),
        chunks,
        last_line,
        rest,
    );
    assert(Seq::<u8>::empty() + payloads(chunks) =~= payloads(chunks));
}

/// Two ways to cut one content into chunks give one response.
pub proof fn lemma_chunk_boundaries_do_not_matter(
    head: Seq<u8>,
    first: Seq<Chunk>,
    second: Seq<Chunk>,
    last_line: Seq<u8>,
)
    requires
        head_of(head) is Ok,
        head_of(head)->Ok_0.end == head.len(),
        head_of(head)->Ok_0.chunked,
        well_framed(first),
        well_framed(second),
        payloads(first) == payloads(second),
        announces(last_line, 0),
    ensures
        response_of(head + framed(first) + last_line) == response_of(
            head + framed(second) + last_line,
        ),
{
    lemma_chunked_response(head, first, last_line, Seq::empty());
    lemma_chunked_response(head, second, last_line, Seq::empty());
    assert(head + framed(first) + last_line + Seq::<u8>::empty() =~= head + framed(first)
        + last_line);
    assert(head + framed(second) + last_line + Seq::<u8>::empty() =~= head + framed(second)
        + last_line);
}

/// Whether `text` can stand in a line of a head as it is: it holds ASCII
/// characters only, and no line feed.
pub open spec fn plain(text: Seq<char>) -> bool {
    is_ascii_chars(text) && free_of(text, '\n')
}

/// Whether every header has a plain name without a colon and a plain value.
pub open spec fn plain_headers(headers: Seq<Pair>) -> bool {
    forall|i: int|
        0 <= i < headers.len() ==> {
            &&& plain((#[trigger] headers[i]).0)
            &&& free_of(headers[i].0, ':')
            &&& plain(headers[i].1)
        }
}

/// The bytes of a line with the plain text `text`.
pub open spec fn line_bytes(text: Seq<char>) -> Seq<u8> {
    ascii_bytes(text + crlf())
}

/// The text of the line of a header.
pub open spec fn header_line(header: Pair) -> Seq<char> {
    header.0 + colon_space() + header.1
}

/// The bytes of the lines of the headers.
pub open spec fn header_block(headers: Seq<Pair>) -> Seq<u8>
    decreases headers.len(),
{
    if headers.len() == 0 {
        Seq::empty()
    } else {
        line_bytes(header_line(headers[0])) + header_block(headers.drop_first())
    }
}

/// Whether a chunked body was announced before the headers or is by one of
/// them.
pub open spec fn chunked_after(chunked: bool, headers: Seq<Pair>) -> bool
    decreases headers.len(),
{
    if headers.len() == 0 {
        chunked
    } else {
        chunked_after(chunked || announces_chunked(headers[0]), headers.drop_first())
    }
}

/// The bytes of a head: the status line, the lines of the headers, and the
/// empty line.
pub open spec fn written_head(status_line: Seq<char>, headers: Seq<Pair>) -> Seq<u8> {
    line_bytes(status_line) + header_block(headers) + line_bytes(Seq::empty())
}

/// The bytes of a plain line are one whole line of UTF-8 that reads as the
/// text and the line end.
pub proof fn lemma_plain_line(text: Seq<char>)
    requires
        plain(text),
    ensures
        is_line(line_bytes(text)),
        line_bytes(text).len() == text.len() + 2,
        valid_utf8(line_bytes(text)),
        decode_utf8(line_bytes(text)) == text + crlf(),
{
    let t = text + crlf();
    let bytes = line_bytes(text);
    assert forall|i: int| 0 <= i < t.len() implies '\0' <= #[trigger] t[i] <= '\u{7f}' by {
        if i < text.len() {
            assert(t[i] == text[i]);
        }
    }
    is_ascii_chars_encode_utf8(t);
    assert(encode_utf8(t) =~= bytes);
    encode_utf8_valid_utf8(t);
    encode_utf8_decode_utf8(t);
    assert(bytes.last() == t[t.len() - 1] as u8);
    assert forall|k: int| 0 <= k < bytes.len() - 1 implies bytes[k] != lf() by {
        assert(bytes[k] == t[k] as u8);
        if k < text.len() {
            assert(t[k] == text[k]);
        }
    }
}

/// The line of a plain header reads as that header, and is not the empty
/// line.
pub proof fn lemma_header_line_parses(header: Pair)
    requires
        plain(header.0),
        free_of(header.0, ':'),
        plain(header.1),
    ensures
        header_of_line(header_line(header) + crlf()) == Some(header),
        header_line(header) + crlf() != crlf(),
{
    let u = header_line(header);
    let t = u + crlf();
    let n = header.0.len() as int;
    assert(t.len() == u.len() + 2);
    assert(t.skip(t.len() - 2) =~= crlf());
    assert(t.take(t.len() - 2) =~= u);
    assert(u.len() >= 2);
    assert(u.last() != '\n') by {
        if header.1.len() > 0 {
            assert(u.last() == header.1.last());
        } else {
            assert(u.last() == ' ');
        }
    }
    assert(!ends_with(u, crlf())) by {
        if ends_with(u, crlf()) {
            assert(u.skip(u.len() - 2)[1] == crlf()[1]);
        }
    }
    assert(trim_end_matches(u, crlf()) == u);
    assert(trim_end_matches(t, crlf()) == u);
    assert(u.subrange(n, n + 2) =~= colon_space());
    assert forall|j: int| 0 <= j < n implies !occurs_at(u, colon_space(), j) by {
        if j + 2 <= u.len() {
            assert(u.subrange(j, j + 2)[0] == header.0[j]);
            assert(colon_space()[0] == ':');
        }
    }
    lemma_first_occurrence_is(u, colon_space(), n);
    assert(u.take(n) =~= header.0);
    assert(u.skip(n + 2) =~= header.1);
}

/// A header block that was written reads as its headers: where `s` holds,
/// from `from` on, the lines of plain headers, the empty line and any `rest`,
/// the head has the headers put in turn and ends behind the empty line.
pub proof fn lemma_head_from_written(
    s: Seq<u8>,
    from: int,
    status: StatusCode,
    before: Seq<Pair>,
    chunked: bool,
    headers: Seq<Pair>,
    rest: Seq<u8>,
)
    requires
        0 <= from <= s.len(),
        plain_headers(headers),
        s.skip(from) == header_block(headers) + line_bytes(Seq::empty()) + rest,
    ensures
        head_from(s, from, status, before, chunked) == Ok::<Head, ResponseError>(
            Head {
                status,
                headers: put_all(before, headers),
                chunked: chunked_after(chunked, headers),
                end: from + header_block(headers).len() + 2,
            },
        ),
    decreases headers.len(),
{
    if headers.len() == 0 {
        let line = line_bytes(Seq::empty());
        lemma_plain_line(Seq::empty());
        assert(Seq::<char>::empty() + crlf() =~= crlf());
        assert(s.skip(from) =~= line + rest);
        assert(s.subrange(from, from + 2) =~= line) by {
            assert(s.subrange(from, from + 2) =~= s.skip(from).take(2));
        }
        lemma_line_len_is(s, from, 2);
    } else {
        let h = headers[0];
        let later = headers.drop_first();
        let line = line_bytes(header_line(h));
        let n = line.len() as int;
        let tail = header_block(later) + line_bytes(Seq::empty()) + rest;
        assert(plain(header_line(h))) by {
            let u = header_line(h);
            assert forall|i: int| 0 <= i < u.len() implies '\0' <= #[trigger] u[i] <= '\u{7f}'
                && u[i] != '\n' by {
                if i < h.0.len() {
                    assert(u[i] == h.0[i]);
                } else if i >= h.0.len() + 2 {
                    assert(u[i] == h.1[i - h.0.len() - 2]);
                } else {
                    assert(u[i] == colon_space()[i - h.0.len()]);
                }
            }
        }
        lemma_plain_line(header_line(h));
        lemma_header_line_parses(h);
        assert(s.skip(from) =~= line + tail);
        assert(s.subrange(from, from + n) =~= line) by {
            assert(s.subrange(from, from + n) =~= s.skip(from).take(n));
        }
        lemma_line_len_is(s, from, n);
        assert(s.skip(from + n) =~= tail) by {
            assert(s.skip(from + n) =~= s.skip(from).skip(n));
        }
        assert forall|i: int| 0 <= i < later.len() implies {
            &&& plain((#[trigger] later[i]).0)
            &&& free_of(later[i].0, ':')
            &&& plain(later[i].1)
        } by {
            assert(later[i] == headers[i + 1]);
        }
        lemma_head_from_written(
            s,
            from + n,
            status,
            put(before, h.0, h.1),
            chunked || announces_chunked(h),
            later,
            rest,
        );
    }
}

/// A head that was written reads as its status line and its headers: the
/// stream of a written head and any `rest` has the status that the status
/// line announces and the headers put in turn, and its body starts behind the
/// head.
pub proof fn lemma_head_of_written(status_line: Seq<char>, headers: Seq<Pair>, rest: Seq<u8>)
    requires
        plain(status_line),
        plain_headers(headers),
    ensures
        head_of(written_head(status_line, headers) + rest) == Ok::<Head, ResponseError>(
            Head {
                status: status_of_line(status_line + crlf()),
                headers: put_all(Seq::empty(), headers),
                chunked: chunked_after(false, headers),
                end: written_head(status_line, headers).len() as int,
            },
        ),
{
    let first = line_bytes(status_line);
    let n = first.len() as int;
    let s = written_head(status_line, headers) + rest;
    let tail = header_block(headers) + line_bytes(Seq::empty()) + rest;
    lemma_plain_line(status_line);
    assert(s =~= first + tail);
    assert(s.subrange(0, n) =~= first);
    lemma_line_len_is(s, 0, n);
    assert(s.skip(n) =~= tail);
    lemma_head_from_written(
        s,
        n,
        status_of_line(status_line + crlf()),
        Seq::empty(),
        false,
        headers,
        rest,
    );
}

/// A response that was written with the length of its body reads as it was
/// written: where the headers announce no chunks and a `Content-Length` of
/// the length of `body`, the stream of the written head, `body` and any
/// `rest` holds the response with that status, those headers and that body.
pub proof fn lemma_written_response(
    status_line: Seq<char>,
    headers: Seq<Pair>,
    body: Seq<u8>,
    rest: Seq<u8>,
)
    requires
        plain(status_line),
        plain_headers(headers),
        !chunked_after(false, headers),
        content_length(put_all(Seq::empty(), headers)) == Some(body.len() as int),
    ensures
        response_of(written_head(status_line, headers) + body + rest) == complete(
            status_of_line(status_line + crlf()),
            put_all(Seq::empty(), headers),
            Ok(body),
        ),
{
    let head = written_head(status_line, headers);
    lemma_head_of_written(status_line, headers, Seq::empty());
    assert(head + Seq::<u8>::empty() =~= head);
    lemma_announced_length(head, body, rest);
}

/// A chunked response that was written reads as it was written: where a
/// header announces chunks, the stream of the written head, well-framed
/// chunks, a line that announces the size 0 and any `rest` holds the response
/// with that status, those headers and the payloads as its body.
pub proof fn lemma_written_chunked_response(
    status_line: Seq<char>,
    headers: Seq<Pair>,
    chunks: Seq<Chunk>,
    last_line: Seq<u8>,
    rest: Seq<u8>,
)
    requires
        plain(status_line),
        plain_headers(headers),
        chunked_after(false, headers),
        well_framed(chunks),
        announces(last_line, 0),
    ensures
        response_of(written_head(status_line, headers) + framed(chunks) + last_line + rest)
            == complete(
            status_of_line(status_line + crlf()),
            put_all(Seq::empty(), headers),
            Ok(payloads(chunks)),
        ),
{
    let head = written_head(status_line, headers);
    lemma_head_of_written(status_line, headers, Seq::empty());
    assert(head + Seq::<u8>::empty() =~= head);
    lemma_chunked_response(head, chunks, last_line, rest);
}

} // verus!
