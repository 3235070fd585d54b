use vstd::prelude::*;

verus! {

/// Every way in which decoding a request can fail.
#[derive(Debug, Clone, Copy, PartialEq, Eq, Structural)]
pub enum ParserError {
    /// The stream ended where more data was required.
    UnexpectedEof,
    /// A line grew past the configured maximum length.
    MalformedLine,
    /// The request line does not hold three space-separated tokens.
    MalformedRequestLine,
    /// A header line holds no colon.
    MalformedHeader,
    /// The method token is not one of the known methods.
    InvalidMethod,
    /// The version token is not `HTTP/1.1`.
    InvalidProtocol,
    /// The target could not be resolved to a URL.
    InvalidTarget,
    /// The header block has too many lines or too many bytes.
    HeadersTooLarge,
}

/// The description of each error.
pub open spec fn error_text(e: ParserError) -> Seq<char> {
    match e {
        ParserError::UnexpectedEof => "unexpected EOF"@,
        ParserError::MalformedLine => "line too long"@,
        ParserError::MalformedRequestLine => "malformed request line"@,
        ParserError::MalformedHeader => "malformed header"@,
        ParserError::InvalidMethod => "invalid method"@,
        ParserError::InvalidProtocol => "invalid protocol version"@,
        ParserError::InvalidTarget => "invalid request target"@,
        ParserError::HeadersTooLarge => "header block too large"@,
    }
}

impl ParserError {
    /// A short human-readable description.
    pub fn message(&self) -> (r: &'static str)
        ensures
            r@ == error_text(*self),
    {
        match self {
            ParserError::UnexpectedEof => "unexpected EOF",
            ParserError::MalformedLine => "line too long",
            ParserError::MalformedRequestLine => "malformed request line",
            ParserError::MalformedHeader => "malformed header",
            ParserError::InvalidMethod => "invalid method",
            ParserError::InvalidProtocol => "invalid protocol version",
            ParserError::InvalidTarget => "invalid request target",
            ParserError::HeadersTooLarge => "header block too large",
        }
    }
}

#[verifier::external_type_specification]
#[verifier::external_body]
pub struct ExIoError(std::io::Error);

/// Relies on std::io::Error::new: an error of kind `InvalidData` carrying `msg`.
#[verifier::external_body]
fn invalid_data_error(msg: &str) -> std::io::Error {
    std::io::Error::new(std::io::ErrorKind::InvalidData, msg)
}

/// The transport-level error that reports a parse failure: kind `InvalidData`,
/// with the failure's description as its message.
pub fn to_io_error(error: ParserError) -> std::io::Error {
    invalid_data_error(error.message())
}

} // verus!
