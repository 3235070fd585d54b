//! The closed set of request methods.
use vstd::prelude::*;
use crate::bytes::bytes_eq;
use crate::error::ParserError;
use vstd::string::StringSliceAdditionalSpecFns;

verus! {

/// A request method. Any other token is a parse failure, never a value of this type.
#[derive(Debug, Clone, Copy, PartialEq, Eq, Structural)]
pub enum Method {
    Options,
    Get,
    Head,
    Post,
    Put,
    Delete,
    Trace,
    Connect,
}

/// The ASCII bytes of each method's token, as written on the wire.
pub open spec fn method_token(m: Method) -> Seq<u8> {
    match m {
        Method::Options => seq![79u8, 80, 84, 73, 79, 78, 83],
        Method::Get => seq![71u8, 69, 84],
        Method::Head => seq![72u8, 69, 65, 68],
        Method::Post => seq![80u8, 79, 83, 84],
        Method::Put => seq![80u8, 85, 84],
        Method::Delete => seq![68u8, 69, 76, 69, 84, 69],
        Method::Trace => seq![84u8, 82, 65, 67, 69],
        Method::Connect => seq![67u8, 79, 78, 78, 69, 67, 84],
    }
}

/// Each method's token as text.
pub open spec fn method_text(m: Method) -> Seq<char> {
    match m {
        Method::Options => "OPTIONS"@,
        Method::Get => "GET"@,
        Method::Head => "HEAD"@,
        Method::Post => "POST"@,
        Method::Put => "PUT"@,
        Method::Delete => "DELETE"@,
        Method::Trace => "TRACE"@,
        Method::Connect => "CONNECT"@,
    }
}

/// The method whose token is exactly `t` (case-sensitive), if any.
pub open spec fn spec_method(t: Seq<u8>) -> Option<Method> {
    if t == method_token(Method::Options) {
        Some(Method::Options)
    } else if t == method_token(Method::Get) {
        Some(Method::Get)
    } else if t == method_token(Method::Head) {
        Some(Method::Head)
    } else if t == method_token(Method::Post) {
        Some(Method::Post)
    } else if t == method_token(Method::Put) {
        Some(Method::Put)
    } else if t == method_token(Method::Delete) {
        Some(Method::Delete)
    } else if t == method_token(Method::Trace) {
        Some(Method::Trace)
    } else if t == method_token(Method::Connect) {
        Some(Method::Connect)
    } else {
        None
    }
}

/// What parsing the token `t` gives.
pub open spec fn spec_parse_method(t: Seq<u8>) -> Result<Method, ParserError> {
    match spec_method(t) {
        Some(m) => Ok(m),
        None => Err(ParserError::InvalidMethod),
    }
}

pub const ALL_METHODS: [Method; 8] = [
    Method::Options,
    Method::Get,
    Method::Head,
    Method::Post,
    Method::Put,
    Method::Delete,
    Method::Trace,
    Method::Connect,
];

impl Method {
    /// The token of this method.
    pub fn token(&self) -> (r: Vec<u8>)
        ensures
            r@ == method_token(*self),
    {
        match self {
            Method::Options => vec![79u8, 80, 84, 73, 79, 78, 83],
            Method::Get => vec![71u8, 69, 84],
            Method::Head => vec![72u8, 69, 65, 68],
            Method::Post => vec![80u8, 79, 83, 84],
            Method::Put => vec![80u8, 85, 84],
            Method::Delete => vec![68u8, 69, 76, 69, 84, 69],
            Method::Trace => vec![84u8, 82, 65, 67, 69],
            Method::Connect => vec![67u8, 79, 78, 78, 69, 67, 84],
        }
    }

    /// The token of this method as text.
    pub fn as_str(&self) -> (r: &'static str)
        ensures
            r@ == method_text(*self),
    {
        match self {
            Method::Options => "OPTIONS",
            Method::Get => "GET",
            Method::Head => "HEAD",
            Method::Post => "POST",
            Method::Put => "PUT",
            Method::Delete => "DELETE",
            Method::Trace => "TRACE",
            Method::Connect => "CONNECT",
        }
    }

    /// Parses a method token; matching is exact and case-sensitive.
    pub fn from_bytes(t: &[u8]) -> (r: Result<Method, ParserError>)
        ensures
            r == spec_parse_method(t@),
    {
        let mut i: usize = 0;
        while i < 8
            invariant
                0 <= i <= 8,
                forall|k: int| 0 <= k < i ==> t@ != method_token(#[trigger] ALL_METHODS@[k]),
            decreases 8 - i,
        {
            let m = ALL_METHODS[i];
            let tok = m.token();
            if bytes_eq(t, tok.as_slice()) {
                proof {
                    lemma_method_round_trip(m);
                }
                return Ok(m);
            }
            i = i + 1;
        }
        assert(t@ != method_token(ALL_METHODS@[0]));
        assert(t@ != method_token(ALL_METHODS@[1]));
        assert(t@ != method_token(ALL_METHODS@[2]));
        assert(t@ != method_token(ALL_METHODS@[3]));
        assert(t@ != method_token(ALL_METHODS@[4]));
        assert(t@ != method_token(ALL_METHODS@[5]));
        assert(t@ != method_token(ALL_METHODS@[6]));
        assert(t@ != method_token(ALL_METHODS@[7]));
        Err(ParserError::InvalidMethod)
    }
}

/// Parses a method token given as text; see `Method::from_bytes`.
impl std::str::FromStr for Method {
    type Err = ParserError;

    fn from_str(s: &str) -> (r: Result<Method, ParserError>)
        ensures
            r == spec_parse_method(s.spec_bytes()),
    {
        Method::from_bytes(s.as_bytes())
    }
}

/// Every method's token parses back to that method, and a token parses to
/// a method only when it is that method's token.
pub proof fn lemma_method_round_trip(m: Method)
    ensures
        spec_method(method_token(m)) == Some(m),
        forall|t: Seq<u8>| #[trigger] spec_method(t) == Some(m) ==> t == method_token(m),
        spec_parse_method(method_token(m)) == Ok::<Method, ParserError>(m),
{
    let o = method_token(Method::Options);
    let g = method_token(Method::Get);
    let h = method_token(Method::Head);
    let p = method_token(Method::Post);
    let u = method_token(Method::Put);
    let d = method_token(Method::Delete);
    let t = method_token(Method::Trace);
    let c = method_token(Method::Connect);
    assert(o.len() == 7 && g.len() == 3 && h.len() == 4 && p.len() == 4);
    assert(u.len() == 3 && d.len() == 6 && t.len() == 5 && c.len() == 7);
    assert(o[0] != c[0]);
    assert(g[0] != u[0]);
    assert(h[0] != p[0]);
}

/// A token outside the closed set fails with `InvalidMethod`.
pub proof fn lemma_unknown_method_rejected(t: Seq<u8>)
    requires
        forall|m: Method| t != method_token(m),
    ensures
        spec_parse_method(t) == Err::<Method, ParserError>(ParserError::InvalidMethod),
{
    assert(t != method_token(Method::Options));
    assert(t != method_token(Method::Get));
    assert(t != method_token(Method::Head));
    assert(t != method_token(Method::Post));
    assert(t != method_token(Method::Put));
    assert(t != method_token(Method::Delete));
    assert(t != method_token(Method::Trace));
    assert(t != method_token(Method::Connect));
}

} // verus!
