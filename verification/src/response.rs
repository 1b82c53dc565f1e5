//! Responses: the state machine that reads one from a stream, and the
//! response that a whole stream of bytes stands for.

use crate::header_map::{lookup, put, HeaderMap, Pair};
use crate::number::{lemma_parse_unsigned_range, parse_unsigned, read_unsigned};
use crate::status::{status_of_line, StatusCode};
use crate::text::{
    chars_eq, chars_of, decode_text, find, first_occurrence, string_of, trim, trim_bounds,
    trim_end_matches, trim_end_matches_len,
};
use vstd::prelude::*;
use vstd::slice::slice_subrange;
use vstd::utf8::{decode_utf8, valid_utf8};

verus! {

/// Why no response could be read.
#[derive(Debug, Clone, Copy, PartialEq, Eq, Structural)]
pub enum ResponseError {
    /// A line or the body is not UTF-8.
    InvalidData,
    /// The stream ended before the head or an announced length was complete.
    UnexpectedEof,
}

/// A parsed response.
#[derive(Debug)]
pub struct HttpResponse {
    pub status_code: StatusCode,
    pub headers: HeaderMap,
    pub body: String,
}

/// What a response holds, as mathematical values.
pub struct ResponseView {
    pub status_code: StatusCode,
    pub headers: Seq<Pair>,
    pub body: Seq<char>,
}

impl View for HttpResponse {
    type V = ResponseView;

    open spec fn view(&self) -> ResponseView {
        ResponseView {
            status_code: self.status_code,
            headers: self.headers.entries(),
            body: self.body@,
        }
    }
}

/// Carriage return and line feed.
pub open spec fn crlf() -> Seq<char> {
    seq!['\r', '\n']
}

/// What separates the name of a header from its value.
pub open spec fn colon_space() -> Seq<char> {
    seq![':', ' ']
}

/// The header that a line holds: its name stands before the first colon with
/// a space, its value after it, the line end taken off. A line without a colon
/// and a space holds none.
pub open spec fn header_of_line(text: Seq<char>) -> Option<Pair> {
    let line = trim_end_matches(text, crlf());
    match first_occurrence(line, colon_space()) {
        Some(i) => Some((line.take(i), line.skip(i + 2))),
        None => None,
    }
}

/// Whether a header announces a chunked body.
pub open spec fn announces_chunked(header: Pair) -> bool {
    header.0 == "Transfer-Encoding"@ && header.1 == "chunked"@
}

/// The size that a chunk-size line announces: the line without the white
/// space around it, read as a hexadecimal number that fits `usize`.
pub open spec fn chunk_size(text: Seq<char>) -> Option<int> {
    parse_unsigned(trim(text), 16, usize::MAX as int)
}

/// The length that the headers announce for a body that is not chunked: the
/// value of `Content-Length` read as a decimal number that fits `usize`, 0
/// where it is no such number, and none where the header is missing.
pub open spec fn content_length(headers: Seq<Pair>) -> Option<int> {
    match lookup(headers, "Content-Length"@) {
        Some(v) => match parse_unsigned(v, 10, usize::MAX as int) {
            Some(n) => Some(n),
            None => Some(0),
        },
        None => None,
    }
}

/// Where the parser stands.
#[derive(Debug, Clone, Copy, PartialEq, Eq, Structural)]
pub enum Phase {
    /// Before the status line.
    StatusLine,
    /// In the header block.
    Headers,
    /// Before a chunk-size line.
    ChunkSize,
    /// Before the payload of a chunk and the two bytes that end it.
    Chunk,
    /// Before a body of an announced length.
    Body,
    /// Before a body that runs to the end of the stream.
    BodyToEnd,
    /// The response is complete.
    Done,
}

/// What the parser needs next from the stream.
#[derive(Debug, Clone, Copy, PartialEq, Eq, Structural)]
pub enum Demand {
    /// The bytes up to and with the next line feed, or up to the end of the
    /// stream where no line feed comes.
    Line,
    /// Exactly this number of bytes, or fewer where the stream ends before.
    Exact(usize),
    /// All bytes up to the end of the stream.
    Rest,
    /// Nothing: the response is complete.
    Nothing,
}

/// The state of a parser, as mathematical values.
pub struct ParserView {
    pub phase: Phase,
    pub status: StatusCode,
    pub headers: Seq<Pair>,
    pub chunked: bool,
    pub body: Seq<u8>,
    pub want: nat,
}

/// The state before anything was read.
pub open spec fn initial_state() -> ParserView {
    ParserView {
        phase: Phase::StatusLine,
        status: StatusCode::Unsupported(0),
        headers: Seq::empty(),
        chunked: false,
        body: Seq::empty(),
        want: 0,
    }
}

/// What a parser in state `st` needs next.
pub open spec fn demand_of(st: ParserView) -> Demand {
    match st.phase {
        Phase::StatusLine | Phase::Headers | Phase::ChunkSize => Demand::Line,
        Phase::Chunk => Demand::Exact((st.want + 2) as usize),
        Phase::Body => Demand::Exact(st.want as usize),
        Phase::BodyToEnd => Demand::Rest,
        Phase::Done => Demand::Nothing,
    }
}

/// The state after a line of the header block. The line that holds a line end
/// and nothing else closes the block: a chunked body follows where a header
/// has announced one, else a body of the announced length, else a body to the
/// end of the stream. Any other line adds its header, if it holds one.
pub open spec fn after_header_line(st: ParserView, text: Seq<char>) -> ParserView {
    if text == crlf() {
        if st.chunked {
            ParserView { phase: Phase::ChunkSize, ..st }
        } else {
            match content_length(st.headers) {
                Some(n) => ParserView { phase: Phase::Body, want: n as nat, ..st },
                None => ParserView { phase: Phase::BodyToEnd, ..st },
            }
        }
    } else {
        match header_of_line(text) {
            Some(header) => ParserView {
                headers: put(st.headers, header.0, header.1),
                chunked: st.chunked || announces_chunked(header),
                ..st
            },
            None => st,
        }
    }
}

/// The state after a chunk-size line. A size of 0 ends the body, and so does a
/// line that announces no size. A size whose chunk no stream can hold is an
/// early end of the stream.
pub open spec fn after_size_line(st: ParserView, text: Seq<char>) -> Result<
    ParserView,
    ResponseError,
> {
    match chunk_size(text) {
        Some(n) => if n == 0 {
            Ok(ParserView { phase: Phase::Done, ..st })
        } else if n + 2 > usize::MAX {
            Err(ResponseError::UnexpectedEof)
        } else {
            Ok(ParserView { phase: Phase::Chunk, want: n as nat, ..st })
        },
        None => Ok(ParserView { phase: Phase::Done, ..st }),
    }
}

/// The state after `data` was handed to a parser in state `st`, or the error
/// that ends the reading.
pub open spec fn step(st: ParserView, data: Seq<u8>) -> Result<ParserView, ResponseError> {
    match st.phase {
        Phase::StatusLine => if !valid_utf8(data) {
            Err(ResponseError::InvalidData)
        } else {
            Ok(
                ParserView {
                    phase: Phase::Headers,
                    status: status_of_line(decode_utf8(data)),
                    ..st
                },
            )
        },
        Phase::Headers => if data.len() == 0 {
            Err(ResponseError::UnexpectedEof)
        } else if !valid_utf8(data) {
            Err(ResponseError::InvalidData)
        } else {
            Ok(after_header_line(st, decode_utf8(data)))
        },
        Phase::ChunkSize => if !valid_utf8(data) {
            Err(ResponseError::InvalidData)
        } else {
            after_size_line(st, decode_utf8(data))
        },
        Phase::Chunk => if data.len() != st.want + 2 {
            Err(ResponseError::UnexpectedEof)
        } else {
            Ok(
                ParserView {
                    phase: Phase::ChunkSize,
                    body: st.body + data.take(st.want as int),
                    ..st
                },
            )
        },
        Phase::Body => if data.len() != st.want {
            Err(ResponseError::UnexpectedEof)
        } else {
            Ok(ParserView { phase: Phase::Done, body: data, ..st })
        },
        Phase::BodyToEnd => Ok(ParserView { phase: Phase::Done, body: data, ..st }),
        Phase::Done => Ok(st),
    }
}

/// The response that a complete parser holds: its body must be UTF-8.
pub open spec fn finished(st: ParserView) -> Result<ResponseView, ResponseError> {
    if st.phase != Phase::Done {
        Err(ResponseError::UnexpectedEof)
    } else if !valid_utf8(st.body) {
        Err(ResponseError::InvalidData)
    } else {
        Ok(ResponseView { status_code: st.status, headers: st.headers, body: decode_utf8(st.body) })
    }
}

/// The length of the line that starts at `from`: up to and with the next line
/// feed, or up to the end of the stream where none comes.
pub open spec fn line_len(s: Seq<u8>, from: int) -> nat
    decreases s.len() - from,
{
    if from < 0 || from >= s.len() {
        0
    } else if s[from] == 0x0Au8 {
        1
    } else {
        1 + line_len(s, from + 1)
    }
}

/// The head of a response: its status, its headers, whether a header has
/// announced a chunked body, and where the body starts.
pub struct Head {
    pub status: StatusCode,
    pub headers: Seq<Pair>,
    pub chunked: bool,
    pub end: int,
}

/// The head whose header block goes on at `from`, with what the lines before
/// have given. The block ends with the line that holds a line end and nothing
/// else. A stream that ends before is an error, and so is a line that is not
/// UTF-8.
pub open spec fn head_from(
    s: Seq<u8>,
    from: int,
    status: StatusCode,
    headers: Seq<Pair>,
    chunked: bool,
) -> Result<Head, ResponseError>
    decreases s.len() - from,
{
    let n = line_len(s, from);
    let line = s.subrange(from, from + n);
    if from < 0 || from >= s.len() {
        Err(ResponseError::UnexpectedEof)
    } else if !valid_utf8(line) {
        Err(ResponseError::InvalidData)
    } else if decode_utf8(line) == crlf() {
        Ok(Head { status, headers, chunked, end: from + n })
    } else {
        proof {
            lemma_line_len(s, from);
        }
        match header_of_line(decode_utf8(line)) {
            Some(header) => head_from(
                s,
                from + n,
                status,
                put(headers, header.0, header.1),
                chunked || announces_chunked(header),
            ),
            None => head_from(s, from + n, status, headers, chunked),
        }
    }
}

/// The body that the chunks from `from` on spell, after `body`: each chunk is a
/// size line, as many bytes as it announces, and two bytes that are skipped.
/// A size of 0 ends the body, and so does a line that announces no size. A
/// stream that ends inside a chunk is an error.
pub open spec fn chunked_body(s: Seq<u8>, from: int, body: Seq<u8>) -> Result<
    Seq<u8>,
    ResponseError,
>
    decreases s.len() - from,
{
    let n = line_len(s, from);
    let line = s.subrange(from, from + n);
    if !valid_utf8(line) {
        Err(ResponseError::InvalidData)
    } else {
        match chunk_size(decode_utf8(line)) {
            Some(size) => if size == 0 {
                Ok(body)
            } else if from + n + size + 2 > s.len() {
                Err(ResponseError::UnexpectedEof)
            } else {
                proof {
                    lemma_parse_unsigned_range(trim(decode_utf8(line)), 16, usize::MAX as int);
                }
                chunked_body(s, from + n + size + 2, body + s.subrange(from + n, from + n + size))
            },
            None => Ok(body),
        }
    }
}

/// The bytes of the body that follows `head`: the chunks where a header has
/// announced them; else as many bytes as `Content-Length` announces, whatever
/// follows them; else all that is left.
pub open spec fn body_of(s: Seq<u8>, head: Head) -> Result<Seq<u8>, ResponseError> {
    if head.chunked {
        chunked_body(s, head.end, Seq::empty())
    } else {
        match content_length(head.headers) {
            Some(n) => if head.end + n > s.len() {
                Err(ResponseError::UnexpectedEof)
            } else {
                Ok(s.subrange(head.end, head.end + n))
            },
            None => Ok(s.skip(head.end)),
        }
    }
}

/// The response with the given status, headers and body bytes: the body must
/// be UTF-8.
pub open spec fn complete(
    status: StatusCode,
    headers: Seq<Pair>,
    body: Result<Seq<u8>, ResponseError>,
) -> Result<ResponseView, ResponseError> {
    match body {
        Ok(bytes) => if !valid_utf8(bytes) {
            Err(ResponseError::InvalidData)
        } else {
            Ok(ResponseView { status_code: status, headers, body: decode_utf8(bytes) })
        },
        Err(e) => Err(e),
    }
}

/// The response with the given head, if there is one, and the body that
/// follows it.
pub open spec fn with_body(s: Seq<u8>, head: Result<Head, ResponseError>) -> Result<
    ResponseView,
    ResponseError,
> {
    match head {
        Ok(h) => complete(h.status, h.headers, body_of(s, h)),
        Err(e) => Err(e),
    }
}

/// The head of the response that the stream `s` holds: the status that its
/// first line announces, and its header block.
pub open spec fn head_of(s: Seq<u8>) -> Result<Head, ResponseError> {
    let n = line_len(s, 0);
    let line = s.subrange(0, n as int);
    if !valid_utf8(line) {
        Err(ResponseError::InvalidData)
    } else {
        head_from(s, n as int, status_of_line(decode_utf8(line)), Seq::empty(), false)
    }
}

/// The response that the stream `s` holds: a status line, the header block,
/// and the body.
pub open spec fn response_of(s: Seq<u8>) -> Result<ResponseView, ResponseError> {
    with_body(s, head_of(s))
}

/// The response that a parser in state `st` comes to when it is fed the
/// stream `s` from `pos` on.
pub open spec fn resume(st: ParserView, s: Seq<u8>, pos: int) -> Result<
    ResponseView,
    ResponseError,
> {
    match st.phase {
        Phase::StatusLine => response_of(s),
        Phase::Headers => with_body(s, head_from(s, pos, st.status, st.headers, st.chunked)),
        Phase::ChunkSize => complete(st.status, st.headers, chunked_body(s, pos, st.body)),
        Phase::Chunk => if pos + st.want + 2 > s.len() {
            Err(ResponseError::UnexpectedEof)
        } else {
            complete(
                st.status,
                st.headers,
                chunked_body(s, pos + st.want + 2, st.body + s.subrange(pos, pos + st.want)),
            )
        },
        Phase::Body => if pos + st.want > s.len() {
            Err(ResponseError::UnexpectedEof)
        } else {
            complete(st.status, st.headers, Ok(s.subrange(pos, pos + st.want)))
        },
        Phase::BodyToEnd => complete(st.status, st.headers, Ok(s.skip(pos))),
        Phase::Done => complete(st.status, st.headers, Ok(st.body)),
    }
}

/// How many phases may still follow `phase` without a byte being read.
pub open spec fn phase_rank(phase: Phase) -> nat {
    match phase {
        Phase::StatusLine => 3,
        Phase::Headers => 2,
        Phase::Done => 0,
        _ => 1,
    }
}

/// Where the bytes that a parser in state `st` demands at `pos` end in `s`.
pub open spec fn demand_end(st: ParserView, s: Seq<u8>, pos: int) -> int {
    match demand_of(st) {
        Demand::Line => pos + line_len(s, pos),
        Demand::Exact(n) => if pos + n > s.len() {
            s.len() as int
        } else {
            pos + n
        },
        Demand::Rest => s.len() as int,
        Demand::Nothing => pos,
    }
}

/// A line stays within the stream.
pub proof fn lemma_line_len(s: Seq<u8>, from: int)
    requires
        0 <= from <= s.len(),
    ensures
        from + line_len(s, from) <= s.len(),
        from < s.len() ==> line_len(s, from) > 0,
    decreases s.len() - from,
{
    if from < s.len() && s[from] != 0x0Au8 {
        lemma_line_len(s, from + 1);
    }
}

/// What holds of a parser in state `st` that has read the stream up to
/// `pos`: before the status line nothing was read or kept, the body is empty
/// until the head is complete, and a demand for a chunk fits `usize`.
pub open spec fn reading(st: ParserView, pos: int) -> bool {
    &&& st.phase == Phase::StatusLine ==> pos == 0 && st.headers == Seq::<Pair>::empty()
        && !st.chunked
    &&& (st.phase == Phase::StatusLine || st.phase == Phase::Headers) ==> st.body == Seq::<
        u8,
    >::empty()
    &&& st.phase == Phase::Chunk ==> st.want + 2 <= usize::MAX
}

/// Feeding a parser what it demands from the stream leaves the response that
/// it comes to unchanged, and an error of the step is that response. Each
/// step reads a byte or brings the parser nearer to its end.
pub proof fn lemma_step_resumes(st: ParserView, s: Seq<u8>, pos: int)
    requires
        0 <= pos <= s.len() <= usize::MAX,
        reading(st, pos),
        st.phase != Phase::Done,
    ensures
        pos <= demand_end(st, s, pos) <= s.len(),
        match step(st, s.subrange(pos, demand_end(st, s, pos))) {
            Ok(next) => {
                &&& resume(st, s, pos) == resume(next, s, demand_end(st, s, pos))
                &&& reading(next, demand_end(st, s, pos))
                &&& demand_end(st, s, pos) > pos || phase_rank(next.phase) < phase_rank(
                    st.phase,
                )
            },
            Err(e) => resume(st, s, pos) == Err::<ResponseView, ResponseError>(e),
        },
{
    lemma_line_len(s, pos);
    let end = demand_end(st, s, pos);
    let data = s.subrange(pos, end);
    match st.phase {
        Phase::StatusLine => {},
        Phase::Headers => {
            if let Some(value) = lookup(st.headers, "Content-Length"@) {
                lemma_parse_unsigned_range(value, 10, usize::MAX as int);
            }
        },
        Phase::ChunkSize => {
            if valid_utf8(data) {
                lemma_parse_unsigned_range(trim(decode_utf8(data)), 16, usize::MAX as int);
            }
        },
        Phase::Chunk => {
            if pos + st.want + 2 <= s.len() {
                assert(data.take(st.want as int) =~= s.subrange(pos, pos + st.want));
            }
        },
        Phase::Body => {},
        Phase::BodyToEnd => {
            assert(data =~= s.skip(pos));
        },
        Phase::Done => {},
    }
}

/// Reads a response piece by piece: `demand` says what to read from the
/// stream next, `feed` takes what was read, and `finish` gives the response
/// once nothing more is demanded.
pub struct ResponseParser {
    phase: Phase,
    status: StatusCode,
    headers: HeaderMap,
    chunked: bool,
    body: Vec<u8>,
    want: usize,
}

impl View for ResponseParser {
    type V = ParserView;

    closed spec fn view(&self) -> ParserView {
        ParserView {
            phase: self.phase,
            status: self.status,
            headers: self.headers.entries(),
            chunked: self.chunked,
            body: self.body@,
            want: self.want as nat,
        }
    }
}

impl ResponseParser {
    /// Well-formedness: a demand for a chunk fits `usize`, and no header name
    /// occurs twice.
    pub closed spec fn wf(&self) -> bool {
        &&& self.phase == Phase::Chunk ==> self.want + 2 <= usize::MAX
        &&& self.headers.wf()
    }

    /// A parser that has read nothing.
    pub fn new() -> (parser: ResponseParser)
        ensures
            parser@ == initial_state(),
            parser.wf(),
    {
        ResponseParser {
            phase: Phase::StatusLine,
            status: StatusCode::Unsupported(0),
            headers: HeaderMap::new(),
            chunked: false,
            body: Vec::new(),
            want: 0,
        }
    }

    /// What to read next.
    pub fn demand(&self) -> (d: Demand)
        requires
            self.wf(),
        ensures
            d == demand_of(self@),
    {
        match self.phase {
            Phase::StatusLine => Demand::Line,
            Phase::Headers => Demand::Line,
            Phase::ChunkSize => Demand::Line,
            Phase::Chunk => Demand::Exact(self.want + 2),
            Phase::Body => Demand::Exact(self.want),
            Phase::BodyToEnd => Demand::Rest,
            Phase::Done => Demand::Nothing,
        }
    }

    /// Takes a line of the header block.
    fn take_header_line(&mut self, text: &[char])
        requires
            old(self).phase == Phase::Headers,
            old(self).wf(),
        ensures
            final(self)@ == after_header_line(old(self)@, text@),
            final(self).wf(),
    {
        let line_end: Vec<char> = vec!['\r', '\n'];
        assert(line_end@ =~= crlf());
        if chars_eq(text, line_end.as_slice()) {
            if self.chunked {
                self.phase = Phase::ChunkSize;
            } else {
                match self.headers.get("Content-Length") {
                    Some(value) => {
                        let digits = chars_of(value.as_str());
                        let n: usize = match read_unsigned(
                            digits.as_slice(),
                            10,
                            usize::MAX as u64,
                        ) {
                            Some(n) => n as usize,
                            None => 0,
                        };
                        self.want = n;
                        self.phase = Phase::Body;
                    },
                    None => {
                        self.phase = Phase::BodyToEnd;
                    },
                }
            }
        } else {
            let separator: Vec<char> = vec![':', ' '];
            assert(separator@ =~= colon_space());
            let end: usize = trim_end_matches_len(text, line_end.as_slice());
            let line = slice_subrange(text, 0, end);
            match find(line, separator.as_slice()) {
                Some(i) => {
                    let name = string_of(line, 0, i);
                    let value = string_of(line, i + 2, line.len());
                    let name_chars = chars_of("Transfer-Encoding");
                    let value_chars = chars_of("chunked");
                    if chars_eq(slice_subrange(line, 0, i), name_chars.as_slice()) && chars_eq(
                        slice_subrange(line, i + 2, line.len()),
                        value_chars.as_slice(),
                    ) {
                        self.chunked = true;
                    }
                    self.headers.insert(name, value);
                },
                None => {},
            }
        }
    }

    /// Takes what was read for the last demand: a line for `Line`, the bytes
    /// for `Exact` (fewer only where the stream ended) and `Rest`. On an error
    /// the parser stays as it was, and a complete parser takes nothing more.
    pub fn feed(&mut self, data: &[u8]) -> (r: Result<(), ResponseError>)
        requires
            old(self).wf(),
        ensures
            match r {
                Ok(_) => step(old(self)@, data@) == Ok::<ParserView, ResponseError>(final(self)@),
                Err(e) => step(old(self)@, data@) == Err::<ParserView, ResponseError>(e)
                    && final(self)@ == old(self)@,
            },
            final(self).wf(),
    {
        match self.phase {
            Phase::StatusLine => {
                match decode_text(data) {
                    Some(text) => {
                        let chars = chars_of(text.as_str());
                        self.status = StatusCode::from_status_line(chars.as_slice());
                        self.phase = Phase::Headers;
                        Ok(())
                    },
                    None => Err(ResponseError::InvalidData),
                }
            },
            Phase::Headers => {
                if data.len() == 0 {
                    return Err(ResponseError::UnexpectedEof);
                }
                match decode_text(data) {
                    Some(text) => {
                        let chars = chars_of(text.as_str());
                        self.take_header_line(chars.as_slice());
                        Ok(())
                    },
                    None => Err(ResponseError::InvalidData),
                }
            },
            Phase::ChunkSize => {
                match decode_text(data) {
                    Some(text) => {
                        let chars = chars_of(text.as_str());
                        let (from, to) = trim_bounds(chars.as_slice());
                        let word = slice_subrange(chars.as_slice(), from, to);
                        match read_unsigned(word, 16, usize::MAX as u64) {
                            Some(n) => {
                                if n == 0 {
                                    self.phase = Phase::Done;
                                    Ok(())
                                } else if n as usize > usize::MAX - 2 {
                                    Err(ResponseError::UnexpectedEof)
                                } else {
                                    self.want = n as usize;
                                    self.phase = Phase::Chunk;
                                    Ok(())
                                }
                            },
                            None => {
                                self.phase = Phase::Done;
                                Ok(())
                            },
                        }
                    },
                    None => Err(ResponseError::InvalidData),
                }
            },
            Phase::Chunk => {
                if data.len() != self.want + 2 {
                    return Err(ResponseError::UnexpectedEof);
                }
                let payload = slice_subrange(data, 0, self.want);
                self.body.extend_from_slice(payload);
                self.phase = Phase::ChunkSize;
                assert(self.body@ =~= old(self).body@ + data@.take(old(self).want as int));
                Ok(())
            },
            Phase::Body => {
                if data.len() != self.want {
                    return Err(ResponseError::UnexpectedEof);
                }
                self.body = vstd::slice::slice_to_vec(data);
                self.phase = Phase::Done;
                assert(self.body@ =~= data@);
                Ok(())
            },
            Phase::BodyToEnd => {
                self.body = vstd::slice::slice_to_vec(data);
                self.phase = Phase::Done;
                assert(self.body@ =~= data@);
                Ok(())
            },
            Phase::Done => Ok(()),
        }
    }

    /// The response, once nothing more is demanded. Its body must be UTF-8.
    pub fn finish(self) -> (r: Result<HttpResponse, ResponseError>)
        ensures
            match r {
                Ok(response) => finished(self@) == Ok::<ResponseView, ResponseError>(response@)
                    && (self.wf() ==> response.headers.wf()),
                Err(e) => finished(self@) == Err::<ResponseView, ResponseError>(e),
            },
    {
        match self.phase {
            Phase::Done => {},
            _ => {
                return Err(ResponseError::UnexpectedEof);
            },
        }
        match decode_text(self.body.as_slice()) {
            Some(body) => Ok(
                HttpResponse { status_code: self.status, headers: self.headers, body },
            ),
            None => Err(ResponseError::InvalidData),
        }
    }
}

/// Where the line that starts at `from` ends.
fn line_end(s: &[u8], from: usize) -> (end: usize)
    requires
        from <= s@.len(),
    ensures
        end == from + line_len(s@, from as int),
        from <= end <= s@.len(),
{
    let mut i: usize = from;
    while i < s.len()
        invariant
            from <= i <= s@.len(),
            from + line_len(s@, from as int) == i + line_len(s@, i as int),
        decreases s@.len() - i,
    {
        if s[i] == 0x0Au8 {
            return i + 1;
        }
        i += 1;
    }
    i
}

impl HttpResponse {
    /// Reads the response that a whole stream holds. Bytes that follow a body
    /// of an announced length are not looked at.
    pub fn parse(stream: &[u8]) -> (r: Result<HttpResponse, ResponseError>)
        ensures
            match r {
                Ok(response) => response_of(stream@) == Ok::<ResponseView, ResponseError>(
                    response@,
                ) && response.headers.wf(),
                Err(e) => response_of(stream@) == Err::<ResponseView, ResponseError>(e),
            },
    {
        let mut parser = ResponseParser::new();
        let mut pos: usize = 0;
        let total: usize = stream.len();
        loop
            invariant
                pos <= total == stream@.len(),
                parser.wf(),
                resume(parser@, stream@, pos as int) == response_of(stream@),
                reading(parser@, pos as int),
            ensures
                parser.wf(),
                parser@.phase == Phase::Done,
                finished(parser@) == response_of(stream@),
            decreases total - pos, phase_rank(parser@.phase),
        {
            let end: usize = match parser.demand() {
                Demand::Line => line_end(stream, pos),
                Demand::Exact(n) => if n > total - pos {
                    total
                } else {
                    pos + n
                },
                Demand::Rest => total,
                Demand::Nothing => {
                    break ;
                },
            };
            proof {
                lemma_step_resumes(parser@, stream@, pos as int);
            }
            match parser.feed(slice_subrange(stream, pos, end)) {
                Ok(_) => {},
                Err(e) => {
                    return Err(e);
                },
            }
            pos = end;
        }
        parser.finish()
    }
}

/// Why a body could not be decoded as the value that was asked for.
#[derive(Debug)]
pub struct DecodeError {
    /// What the decoder says of the failure.
    pub message: String,
}

impl HttpResponse {
    /// Decodes the body as a JSON value of the type `T` with
    /// `serde_json::from_slice`. A failure comes back as a `DecodeError` with
    /// the decoder's message; no reading of a response gives that error.
    /// Nothing is claimed of the value or of the message.
    #[verifier::external_body]
    pub fn json<T: serde::de::DeserializeOwned>(&self) -> Result<T, DecodeError> {
        match serde_json::from_slice(self.body.as_bytes()) {
            Ok(value) => Ok(value),
            Err(error) => Err(DecodeError { message: error.to_string() }),
        }
    }
}

} // verus!
