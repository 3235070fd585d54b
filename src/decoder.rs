//! Decoding a whole request (request line, then header block) from the bytes
//! received so far.
use vstd::prelude::*;
use crate::bytes::{find_byte, lemma_find_byte_bounds, COLON, CR, LF, SP};
use crate::error::ParserError;
use crate::headers::{
    merged, parse_header_line, spec_header_line, spec_lookup, HeaderMap, HeaderSeq,
};
use crate::line::{content_end, lemma_next_line_bounds, next_line, spec_next_line, LineStep};
use crate::method::{spec_method, Method};
use crate::request_line::{
    lemma_too_few_tokens, lemma_wrong_version, parse_request_line, spec_request_line,
    spec_target_url, split_request_line, http_1_1,
};

verus! {

/// The bounds that guard against peers that send without end.
#[derive(Debug, Clone, Copy, PartialEq, Eq, Structural)]
pub struct Limits {
    /// The most bytes in one line, not counting its `\n` or `\r\n` terminator.
    pub max_line: usize,
    /// The most header lines in one request.
    pub max_headers: usize,
    /// The most bytes in the header block, terminators and the closing empty line included.
    pub max_header_bytes: usize,
}

impl Limits {
    pub fn new(max_line: usize, max_headers: usize, max_header_bytes: usize) -> (r: Limits)
        ensures
            r == (Limits { max_line, max_headers, max_header_bytes }),
    {
        Limits { max_line, max_headers, max_header_bytes }
    }
}

impl Default for Limits {
    /// Lines of up to 8 KiB, 100 header lines, a header block of up to 64 KiB.
    fn default() -> (r: Limits)
        ensures
            r == (Limits { max_line: 8192, max_headers: 100, max_header_bytes: 65536 }),
    {
        Limits { max_line: 8192, max_headers: 100, max_header_bytes: 65536 }
    }
}

/// What the header block gives: the entries and where the request ends, or a
/// need for more bytes, or an error.
pub enum HeadersModel {
    Complete(HeaderSeq, int),
    Incomplete,
    Failed(ParserError),
}

#[via_fn]
proof fn header_block_decreases(
    s: Seq<u8>,
    h: int,
    p: int,
    count: int,
    acc: HeaderSeq,
    at_eof: bool,
    lim: Limits,
) {
    if 0 <= p <= s.len() <= usize::MAX {
        lemma_next_line_bounds(s, p, at_eof, lim.max_line as int);
    }
}

/// The header block of `s` that starts at `h`, read on from line start `p`
/// with `count` header lines taken so far into `acc`.
pub open spec fn spec_header_block(
    s: Seq<u8>,
    h: int,
    p: int,
    count: int,
    acc: HeaderSeq,
    at_eof: bool,
    lim: Limits,
) -> HeadersModel
    decreases s.len() - p,
    when 0 <= p <= s.len() <= usize::MAX
    via header_block_decreases
{
    match spec_next_line(s, p, at_eof, lim.max_line as int) {
        LineStep::TooLong => HeadersModel::Failed(ParserError::MalformedLine),
        LineStep::NeedMore => if s.len() - h > lim.max_header_bytes {
            HeadersModel::Failed(ParserError::HeadersTooLarge)
        } else {
            HeadersModel::Incomplete
        },
        LineStep::End => if s.len() - h > lim.max_header_bytes {
            HeadersModel::Failed(ParserError::HeadersTooLarge)
        } else {
            HeadersModel::Failed(ParserError::UnexpectedEof)
        },
        LineStep::Line { end, next } => if next - h > lim.max_header_bytes {
            HeadersModel::Failed(ParserError::HeadersTooLarge)
        } else if end == p {
            HeadersModel::Complete(acc, next as int)
        } else if count >= lim.max_headers {
            HeadersModel::Failed(ParserError::HeadersTooLarge)
        } else {
            match spec_header_line(s.subrange(p, end as int)) {
                Err(e) => HeadersModel::Failed(e),
                Ok((n, v)) => spec_header_block(
                    s,
                    h,
                    next as int,
                    count + 1,
                    merged(acc, n, v),
                    at_eof,
                    lim,
                ),
            }
        },
    }
}

/// The outcome of reading a header block.
#[derive(Debug)]
pub enum HeaderBlock {
    /// The entries, and the index just past the closing empty line.
    Complete(HeaderMap, usize),
    Incomplete,
    Failed(ParserError),
}

impl View for HeaderBlock {
    type V = HeadersModel;

    open spec fn view(&self) -> HeadersModel {
        match self {
            HeaderBlock::Complete(m, n) => HeadersModel::Complete(m@, *n as int),
            HeaderBlock::Incomplete => HeadersModel::Incomplete,
            HeaderBlock::Failed(e) => HeadersModel::Failed(*e),
        }
    }
}

/// Reads the header block of `s` that starts at `start`: header lines up to an
/// empty line, within the bounds of `limits`.
pub fn parse_header_block(s: &[u8], start: usize, at_eof: bool, limits: &Limits) -> (r: HeaderBlock)
    requires
        start <= s@.len(),
    ensures
        r@ == spec_header_block(
            s@,
            start as int,
            start as int,
            0,
            Seq::<(Seq<u8>, Seq<u8>)>::empty(),
            at_eof,
            *limits,
        ),
        r matches HeaderBlock::Complete(m, _) ==> m.wf(),
{
    let total = s.len();
    assert(total == s@.len());
    let mut map = HeaderMap::new();
    let mut p: usize = start;
    let mut count: usize = 0;
    loop
        invariant
            start <= p <= s@.len(),
            s@.len() <= usize::MAX,
            count <= limits.max_headers,
            map.wf(),
            spec_header_block(
                s@,
                start as int,
                start as int,
                0,
                Seq::<(Seq<u8>, Seq<u8>)>::empty(),
                at_eof,
                *limits,
            ) == spec_header_block(s@, start as int, p as int, count as int, map@, at_eof, *limits),
        decreases s@.len() - p,
    {
        proof {
            lemma_next_line_bounds(s@, p as int, at_eof, limits.max_line as int);
        }
        match next_line(s, p, at_eof, limits.max_line) {
            LineStep::TooLong => {
                return HeaderBlock::Failed(ParserError::MalformedLine);
            },
            LineStep::NeedMore => {
                if s.len() - start > limits.max_header_bytes {
                    return HeaderBlock::Failed(ParserError::HeadersTooLarge);
                }
                return HeaderBlock::Incomplete;
            },
            LineStep::End => {
                if s.len() - start > limits.max_header_bytes {
                    return HeaderBlock::Failed(ParserError::HeadersTooLarge);
                }
                return HeaderBlock::Failed(ParserError::UnexpectedEof);
            },
            LineStep::Line { end, next } => {
                if next - start > limits.max_header_bytes {
                    return HeaderBlock::Failed(ParserError::HeadersTooLarge);
                }
                if end == p {
                    return HeaderBlock::Complete(map, next);
                }
                if count >= limits.max_headers {
                    return HeaderBlock::Failed(ParserError::HeadersTooLarge);
                }
                match parse_header_line(&s[p..end]) {
                    Err(e) => {
                        return HeaderBlock::Failed(e);
                    },
                    Ok((n, v)) => {
                        map.append(n.as_slice(), v.as_slice());
                        count = count + 1;
                        p = next;
                    },
                }
            },
        }
    }
}

/// The abstract value of a request.
pub struct RequestModel {
    pub method: Method,
    pub target: Seq<u8>,
    pub url: Seq<char>,
    pub headers: HeaderSeq,
}

/// A decoded request. The version is always `HTTP/1.1`: no other is accepted.
#[derive(Debug, Clone)]
pub struct Request {
    method: Method,
    target: Vec<u8>,
    url: String,
    headers: HeaderMap,
}

impl View for Request {
    type V = RequestModel;

    closed spec fn view(&self) -> RequestModel {
        RequestModel {
            method: self.method,
            target: self.target@,
            url: self.url@,
            headers: self.headers@,
        }
    }
}

impl Request {
    pub fn method(&self) -> (r: Method)
        ensures
            r == self@.method,
    {
        self.method
    }

    /// The target token as it stood in the request line.
    pub fn target(&self) -> (r: &[u8])
        ensures
            r@ == self@.target,
    {
        self.target.as_slice()
    }

    /// The target resolved against the base URL.
    pub fn url(&self) -> (r: &str)
        ensures
            r@ == self@.url,
    {
        self.url.as_str()
    }

    /// The protocol version, the only one accepted.
    pub fn version(&self) -> (r: &'static str)
        ensures
            r@ == "HTTP/1.1"@,
    {
        "HTTP/1.1"
    }

    pub fn headers(&self) -> (r: &HeaderMap)
        ensures
            r@ == self@.headers,
    {
        &self.headers
    }

    /// The value of the header `name`, matched without regard to ASCII case.
    pub fn header(&self, name: &[u8]) -> (r: Option<&[u8]>)
        ensures
            match r {
                Some(x) => spec_lookup(self@.headers, name@) == Some(x@),
                None => spec_lookup(self@.headers, name@) is None,
            },
    {
        self.headers.get(name)
    }
}

/// What decoding gives on the bytes received so far.
pub enum DecodeModel {
    /// The request, and how many bytes it took.
    Complete(RequestModel, int),
    Incomplete,
    Failed(ParserError),
}

/// What decoding `s` gives; `at_eof` says that no more bytes will come.
pub open spec fn spec_decode(s: Seq<u8>, at_eof: bool, lim: Limits) -> DecodeModel {
    match spec_next_line(s, 0, at_eof, lim.max_line as int) {
        LineStep::TooLong => DecodeModel::Failed(ParserError::MalformedLine),
        LineStep::End => DecodeModel::Failed(ParserError::UnexpectedEof),
        LineStep::NeedMore => DecodeModel::Incomplete,
        LineStep::Line { end, next } => match spec_request_line(s.subrange(0, end as int)) {
            Err(e) => DecodeModel::Failed(e),
            Ok((method, target, url)) => match spec_header_block(
                s,
                next as int,
                next as int,
                0,
                Seq::<(Seq<u8>, Seq<u8>)>::empty(),
                at_eof,
                lim,
            ) {
                HeadersModel::Complete(headers, n) => DecodeModel::Complete(
                    RequestModel { method, target, url, headers },
                    n,
                ),
                HeadersModel::Incomplete => DecodeModel::Incomplete,
                HeadersModel::Failed(e) => DecodeModel::Failed(e),
            },
        },
    }
}

/// The outcome of decoding.
#[derive(Debug)]
pub enum Decoded {
    /// The request, and how many bytes it took.
    Complete(Request, usize),
    /// More bytes are needed.
    Incomplete,
    Failed(ParserError),
}

impl View for Decoded {
    type V = DecodeModel;

    open spec fn view(&self) -> DecodeModel {
        match self {
            Decoded::Complete(r, n) => DecodeModel::Complete(r@, *n as int),
            Decoded::Incomplete => DecodeModel::Incomplete,
            Decoded::Failed(e) => DecodeModel::Failed(*e),
        }
    }
}

/// Decodes a request from the bytes received so far: the request line, then
/// the header block. The first failure is returned unchanged.
pub fn decode_request(input: &[u8], at_eof: bool, limits: &Limits) -> (r: Decoded)
    ensures
        r@ == spec_decode(input@, at_eof, *limits),
{
    let total = input.len();
    assert(total == input@.len());
    proof {
        lemma_next_line_bounds(input@, 0, at_eof, limits.max_line as int);
    }
    match next_line(input, 0, at_eof, limits.max_line) {
        LineStep::TooLong => Decoded::Failed(ParserError::MalformedLine),
        LineStep::End => Decoded::Failed(ParserError::UnexpectedEof),
        LineStep::NeedMore => Decoded::Incomplete,
        LineStep::Line { end, next } => match parse_request_line(&input[0..end]) {
            Err(e) => Decoded::Failed(e),
            Ok(line) => match parse_header_block(input, next, at_eof, limits) {
                HeaderBlock::Complete(headers, n) => {
                    let req = Request {
                        method: line.method,
                        target: line.target,
                        url: line.url,
                        headers,
                    };
                    Decoded::Complete(req, n)
                },
                HeaderBlock::Incomplete => Decoded::Incomplete,
                HeaderBlock::Failed(e) => Decoded::Failed(e),
            },
        },
    }
}

/// A request whose header block is complete never took more bytes for it
/// than the bound allows.
pub proof fn lemma_header_block_within_bound(
    s: Seq<u8>,
    h: int,
    p: int,
    count: int,
    acc: HeaderSeq,
    at_eof: bool,
    lim: Limits,
)
    requires
        0 <= h <= p <= s.len() <= usize::MAX,
    ensures
        spec_header_block(s, h, p, count, acc, at_eof, lim) matches HeadersModel::Complete(_, n)
            ==> n - h <= lim.max_header_bytes,
    decreases s.len() - p,
{
    lemma_next_line_bounds(s, p, at_eof, lim.max_line as int);
    match spec_next_line(s, p, at_eof, lim.max_line as int) {
        LineStep::Line { end, next } => {
            if next - h <= lim.max_header_bytes && end != p && count < lim.max_headers {
                match spec_header_line(s.subrange(p, end as int)) {
                    Ok((n, v)) => {
                        lemma_header_block_within_bound(
                            s,
                            h,
                            next as int,
                            count + 1,
                            merged(acc, n, v),
                            at_eof,
                            lim,
                        );
                    },
                    Err(_) => {},
                }
            }
        },
        _ => {},
    }
}

/// A decoded request never has a header block larger than the bound.
pub proof fn lemma_decoded_within_bound(s: Seq<u8>, at_eof: bool, lim: Limits)
    requires
        s.len() <= usize::MAX,
    ensures
        spec_next_line(s, 0, at_eof, lim.max_line as int) matches LineStep::Line { end, next }
            ==> (spec_decode(s, at_eof, lim) matches DecodeModel::Complete(_, n) ==> n - next
            <= lim.max_header_bytes),
{
    lemma_next_line_bounds(s, 0, at_eof, lim.max_line as int);
    if let LineStep::Line { end, next } = spec_next_line(s, 0, at_eof, lim.max_line as int) {
        lemma_header_block_within_bound(
            s,
            next as int,
            next as int,
            0,
            Seq::<(Seq<u8>, Seq<u8>)>::empty(),
            at_eof,
            lim,
        );
    }
}

/// Once the unterminated bytes after a good request line pass the header-block
/// bound (while still within a line's length), decoding fails with
/// `HeadersTooLarge`, whether or not the stream has ended.
pub proof fn lemma_oversized_header_block(
    s: Seq<u8>,
    at_eof: bool,
    lim: Limits,
    end: usize,
    next: usize,
)
    requires
        s.len() <= usize::MAX,
        spec_next_line(s, 0, at_eof, lim.max_line as int) == (LineStep::Line { end, next }),
        spec_request_line(s.subrange(0, end as int)) is Ok,
        forall|k: int| next <= k < s.len() ==> s[k] != LF,
        s.len() - next > lim.max_header_bytes,
        s.len() - next <= lim.max_line,
    ensures
        spec_decode(s, at_eof, lim) == DecodeModel::Failed(ParserError::HeadersTooLarge),
{
    lemma_next_line_bounds(s, 0, at_eof, lim.max_line as int);
    lemma_find_byte_bounds(s, LF, next as int);
    if find_byte(s, LF, next as int) < s.len() {
        assert(s[find_byte(s, LF, next as int)] == LF);
    }
}

/// A request line followed at once by an empty line decodes, with no headers.
pub proof fn lemma_no_headers(s: Seq<u8>, at_eof: bool, lim: Limits, end: usize, next: usize)
    requires
        s.len() <= usize::MAX,
        spec_next_line(s, 0, at_eof, lim.max_line as int) == (LineStep::Line { end, next }),
        spec_request_line(s.subrange(0, end as int)) is Ok,
        next < s.len() && s[next as int] == LF || next + 1 < s.len() && s[next as int] == CR
            && s[next + 1] == LF,
        lim.max_line >= 1,
        lim.max_header_bytes >= 2,
    ensures
        spec_decode(s, at_eof, lim) matches DecodeModel::Complete(m, _) && m.headers
            == Seq::<(Seq<u8>, Seq<u8>)>::empty(),
{
    lemma_next_line_bounds(s, 0, at_eof, lim.max_line as int);
    if s[next as int] != LF {
        assert(find_byte(s, LF, next + 1) == next + 1);
        assert(find_byte(s, LF, next as int) == next + 1);
    }
}

/// A stream that ends before the request line's terminator gives
/// `UnexpectedEof`.
pub proof fn lemma_eof_before_request_line(s: Seq<u8>, lim: Limits)
    requires
        forall|k: int| 0 <= k < s.len() ==> s[k] != LF,
        s.len() <= lim.max_line,
    ensures
        spec_decode(s, true, lim) == DecodeModel::Failed(ParserError::UnexpectedEof),
{
    lemma_find_byte_bounds(s, LF, 0);
    if find_byte(s, LF, 0) < s.len() {
        assert(s[find_byte(s, LF, 0)] == LF);
    }
}

/// A request line that arrived whole but lacks a token gives
/// `MalformedRequestLine`, not `UnexpectedEof`.
pub proof fn lemma_missing_token(s: Seq<u8>, at_eof: bool, lim: Limits, end: usize, next: usize)
    requires
        s.len() <= usize::MAX,
        spec_next_line(s, 0, at_eof, lim.max_line as int) == (LineStep::Line { end, next }),
        forall|a: int, b: int| 0 <= a < b < end ==> !(s[a] == SP && s[b] == SP),
    ensures
        spec_decode(s, at_eof, lim) == DecodeModel::Failed(ParserError::MalformedRequestLine),
{
    lemma_next_line_bounds(s, 0, at_eof, lim.max_line as int);
    let line = s.subrange(0, end as int);
    assert forall|a: int, b: int| 0 <= a < b < line.len() implies !(line[a] == SP && line[b]
        == SP) by {
        assert(line[a] == s[a] && line[b] == s[b]);
    }
    lemma_too_few_tokens(line);
}

/// `s[p..q]` is a run of `n` header lines, each ended by `\n`, not empty,
/// holding a colon, and within `max_line` bytes.
pub open spec fn header_run(s: Seq<u8>, p: int, q: int, n: int, max_line: int) -> bool
    decreases n,
{
    if n <= 0 {
        p == q
    } else {
        let lf = find_byte(s, LF, p);
        let end = content_end(s, p, lf);
        &&& lf < q
        &&& end > p
        &&& end - p <= max_line
        &&& find_byte(s.subrange(p, end), COLON, 0) < end - p
        &&& header_run(s, lf + 1, q, n - 1, max_line)
    }
}

/// Header lines that run past the byte bound before any empty line fail with
/// `HeadersTooLarge`, at the line that crosses it.
pub proof fn lemma_header_run_too_large(
    s: Seq<u8>,
    h: int,
    p: int,
    q: int,
    n: int,
    count: int,
    acc: HeaderSeq,
    at_eof: bool,
    lim: Limits,
)
    requires
        0 <= h <= p <= q <= s.len() <= usize::MAX,
        header_run(s, p, q, n, lim.max_line as int),
        0 <= count,
        count + n <= lim.max_headers,
        p - h <= lim.max_header_bytes,
        q - h > lim.max_header_bytes,
    ensures
        spec_header_block(s, h, p, count, acc, at_eof, lim) == HeadersModel::Failed(
            ParserError::HeadersTooLarge,
        ),
    decreases n,
{
    lemma_find_byte_bounds(s, LF, p);
    let lf = find_byte(s, LF, p);
    let end = content_end(s, p, lf);
    let next = lf + 1;
    assert(spec_next_line(s, p, at_eof, lim.max_line as int) == (LineStep::Line {
        end: end as usize,
        next: next as usize,
    }));
    if next - h <= lim.max_header_bytes {
        let line = s.subrange(p, end);
        match spec_header_line(line) {
            Ok((nm, v)) => {
                lemma_header_run_too_large(
                    s,
                    h,
                    next,
                    q,
                    n - 1,
                    count + 1,
                    merged(acc, nm, v),
                    at_eof,
                    lim,
                );
            },
            Err(_) => {},
        }
    }
}

/// After a good request line, header lines that pass the byte bound before an
/// empty line make decoding fail with `HeadersTooLarge`.
pub proof fn lemma_header_bytes_exceeded(
    s: Seq<u8>,
    at_eof: bool,
    lim: Limits,
    end: usize,
    next: usize,
    q: int,
    n: int,
)
    requires
        s.len() <= usize::MAX,
        spec_next_line(s, 0, at_eof, lim.max_line as int) == (LineStep::Line { end, next }),
        spec_request_line(s.subrange(0, end as int)) is Ok,
        next <= q <= s.len(),
        header_run(s, next as int, q, n, lim.max_line as int),
        n <= lim.max_headers,
        q - next > lim.max_header_bytes,
    ensures
        spec_decode(s, at_eof, lim) == DecodeModel::Failed(ParserError::HeadersTooLarge),
{
    lemma_next_line_bounds(s, 0, at_eof, lim.max_line as int);
    lemma_header_run_too_large(
        s,
        next as int,
        next as int,
        q,
        n,
        0,
        Seq::<(Seq<u8>, Seq<u8>)>::empty(),
        at_eof,
        lim,
    );
}

/// A whole request line with a known method, a resolvable target and any
/// version other than exactly `HTTP/1.1` makes decoding fail with
/// `InvalidProtocol`.
pub proof fn lemma_wrong_version_decodes(
    s: Seq<u8>,
    at_eof: bool,
    lim: Limits,
    end: usize,
    next: usize,
    m: Seq<u8>,
    t: Seq<u8>,
    v: Seq<u8>,
)
    requires
        spec_next_line(s, 0, at_eof, lim.max_line as int) == (LineStep::Line { end, next }),
        split_request_line(s.subrange(0, end as int)) == Some((m, t, v)),
        spec_method(m) is Some,
        spec_target_url(t) is Some,
        v != http_1_1(),
    ensures
        spec_decode(s, at_eof, lim) == DecodeModel::Failed(ParserError::InvalidProtocol),
{
    lemma_wrong_version(s.subrange(0, end as int), m, t, v);
}

} // verus!
