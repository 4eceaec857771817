use vstd::prelude::*;

verus! {

/// Everything that can go wrong while parsing a request or building a route table.
#[derive(Debug, Clone, Copy, PartialEq, Eq, Structural)]
pub enum Error {
    /// The buffer is not valid UTF-8.
    HttpUnableToParse,
    /// Fewer than two lines, or a status line that is not three tokens.
    HttpMalformedRequest,
    HttpUnsupportedVersion,
    HttpUnsupportedMethod,
    /// The path token is empty or does not start with `/`.
    HttpPathParsing,
    /// A header line without `:`, or with a key that ends in whitespace.
    HttpBadHeaders,
    HttpHeaderNoKey,
    HttpHeaderNoValue,
    /// `Content-Length` is not an unsigned integer.
    HttpContentLengthParsing,
    /// `Content-Length` asks for more bytes than the body line holds.
    HttpBodyTooShort,
    /// The first `Content-Length` bytes of the body end inside a character.
    HttpBodySplitsCharacter,
    /// A route segment `{}` names no capture key.
    CaptureKeyMissing,
    /// Two captures of one route use the same key.
    DuplicateCaptureKey,
    /// A route with the same skeleton is already registered.
    DuplicateRoute,
    /// A handler does not serve the request's method.
    HandlerUnsupportedMethod,
    /// A handler did not find a capture or header that it needs.
    HandlerMissingValue,
}

} // verus!
