//! The request line: `METHOD SP TARGET SP VERSION`.
use vstd::prelude::*;
use vstd::utf8::{decode_utf8, valid_utf8};
use crate::bytes::{bytes_eq, copy_range, find, find_byte, lemma_find_byte_bounds, SP};
use crate::error::ParserError;
use crate::method::{spec_method, Method};
use crate::target::{climbs_above_root, spec_climbs_above_root};

verus! {

#[verifier::external_type_specification]
#[verifier::external_body]
pub struct ExUrlParseError(url::ParseError);

/// The serialization of `target` resolved against the base URL `base`, or
/// `None` where either does not parse.
pub uninterp spec fn resolved_url(base: Seq<char>, target: Seq<char>) -> Option<Seq<char>>;

/// Relies on url::Url::parse for `base` and url::Url::join for `target`; the
/// text is the resolved URL's serialization (`From<Url> for String`).
#[verifier::external_body]
fn resolve_url(base: &str, target: &str) -> (r: Result<String, url::ParseError>)
    ensures
        match r {
            Ok(u) => resolved_url(base@, target@) == Some(u@),
            Err(_) => resolved_url(base@, target@) is None,
        },
{
    url::Url::parse(base).and_then(|b| b.join(target)).map(String::from)
}

/// Relies on std::str::from_utf8: it accepts exactly the well-formed UTF-8
/// byte strings, and the text it gives holds the characters they encode.
#[verifier::external_body]
fn utf8_text(b: &[u8]) -> (r: Option<&str>)
    ensures
        r is Some <==> valid_utf8(b@),
        r matches Some(t) ==> t@ == decode_utf8(b@),
{
    std::str::from_utf8(b).ok()
}

/// The base that every target is resolved against.
pub open spec fn base_url() -> Seq<char> {
    "http://localhost/"@
}

/// The only accepted version token: `HTTP/1.1`.
pub open spec fn http_1_1() -> Seq<u8> {
    seq![72u8, 84, 84, 80, 47, 49, 46, 49]
}

/// The line split at its first two spaces: method, target, and the rest as
/// version. `None` where the line holds fewer than two spaces.
pub open spec fn split_request_line(line: Seq<u8>) -> Option<(Seq<u8>, Seq<u8>, Seq<u8>)> {
    let a = find_byte(line, SP, 0);
    let b = find_byte(line, SP, a + 1);
    if a >= line.len() || b >= line.len() {
        None
    } else {
        Some((line.subrange(0, a), line.subrange(a + 1, b), line.subrange(b + 1, line.len() as int)))
    }
}

/// The URL that a target token resolves to, if any. A target whose `..`
/// segments would climb above the root resolves to none.
pub open spec fn spec_target_url(t: Seq<u8>) -> Option<Seq<char>> {
    if valid_utf8(t) && !spec_climbs_above_root(t) {
        resolved_url(base_url(), decode_utf8(t))
    } else {
        None
    }
}

/// A decoded request line: method, raw target token, resolved URL.
pub type RequestLineModel = (Method, Seq<u8>, Seq<char>);

/// What parsing a request line gives. The checks come in this order: the
/// shape, the method, the target, the version.
pub open spec fn spec_request_line(line: Seq<u8>) -> Result<RequestLineModel, ParserError> {
    match split_request_line(line) {
        None => Err(ParserError::MalformedRequestLine),
        Some((m, t, v)) => match spec_method(m) {
            None => Err(ParserError::InvalidMethod),
            Some(method) => match spec_target_url(t) {
                None => Err(ParserError::InvalidTarget),
                Some(u) => if v == http_1_1() {
                    Ok((method, t, u))
                } else {
                    Err(ParserError::InvalidProtocol)
                },
            },
        },
    }
}

/// A parsed request line.
pub struct RequestLine {
    pub method: Method,
    pub target: Vec<u8>,
    pub url: String,
}

impl View for RequestLine {
    type V = RequestLineModel;

    open spec fn view(&self) -> RequestLineModel {
        (self.method, self.target@, self.url@)
    }
}

/// Resolves a target token against the base URL.
pub fn target_url(t: &[u8]) -> (r: Option<String>)
    ensures
        match r {
            Some(u) => spec_target_url(t@) == Some(u@),
            None => spec_target_url(t@) is None,
        },
{
    if climbs_above_root(t) {
        return None;
    }
    match utf8_text(t) {
        None => None,
        Some(text) => {
            let base = "http://localhost/";
            proof {
                reveal_strlit("http://localhost/");
            }
            match resolve_url(base, text) {
                Ok(u) => Some(u),
                Err(_) => None,
            }
        },
    }
}

/// Parses one request line, given without its terminator.
pub fn parse_request_line(line: &[u8]) -> (r: Result<RequestLine, ParserError>)
    ensures
        match r {
            Ok(l) => spec_request_line(line@) == Ok::<RequestLineModel, ParserError>(l@),
            Err(e) => spec_request_line(line@) == Err::<RequestLineModel, ParserError>(e),
        },
{
    let a = find(line, SP, 0);
    proof {
        lemma_find_byte_bounds(line@, SP, 0);
    }
    if a >= line.len() {
        return Err(ParserError::MalformedRequestLine);
    }
    let b = find(line, SP, a + 1);
    proof {
        lemma_find_byte_bounds(line@, SP, a + 1);
    }
    if b >= line.len() {
        return Err(ParserError::MalformedRequestLine);
    }
    let method = match Method::from_bytes(&line[0..a]) {
        Ok(m) => m,
        Err(e) => return Err(e),
    };
    let target = copy_range(line, a + 1, b);
    let url = match target_url(target.as_slice()) {
        Some(u) => u,
        None => return Err(ParserError::InvalidTarget),
    };
    let version = [72u8, 84, 84, 80, 47, 49, 46, 49];
    assert(version@ =~= http_1_1());
    if !bytes_eq(&line[b + 1..line.len()], version.as_slice()) {
        return Err(ParserError::InvalidProtocol);
    }
    Ok(RequestLine { method, target, url })
}

/// A line with fewer than two spaces, that is fewer than three tokens, is
/// malformed, whatever it holds.
pub proof fn lemma_too_few_tokens(line: Seq<u8>)
    requires
        forall|a: int, b: int| 0 <= a < b < line.len() ==> !(line[a] == SP && line[b] == SP),
    ensures
        spec_request_line(line) == Err::<RequestLineModel, ParserError>(
            ParserError::MalformedRequestLine,
        ),
{
    lemma_find_byte_bounds(line, SP, 0);
    let a = find_byte(line, SP, 0);
    if a < line.len() {
        lemma_find_byte_bounds(line, SP, a + 1);
        let b = find_byte(line, SP, a + 1);
        if b < line.len() {
            assert(line[a] == SP && line[b] == SP);
        }
    }
}

/// With a known method and a resolvable target, any version token other than
/// exactly `HTTP/1.1` (another case, trailing whitespace) fails with `InvalidProtocol`.
pub proof fn lemma_wrong_version(line: Seq<u8>, m: Seq<u8>, t: Seq<u8>, v: Seq<u8>)
    requires
        split_request_line(line) == Some((m, t, v)),
        spec_method(m) is Some,
        spec_target_url(t) is Some,
        v != http_1_1(),
    ensures
        spec_request_line(line) == Err::<RequestLineModel, ParserError>(
            ParserError::InvalidProtocol,
        ),
{
}

} // verus!
