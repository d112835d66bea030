use vstd::prelude::*;

verus! {

/// The error taxonomy of the client.
///
/// Every failure is surfaced at the point of observation and none is
/// recovered locally; once the response body reports an error it is terminal
/// for that call.
#[derive(Debug, Clone)]
pub enum Error {
    /// The text transport held bytes that are not valid base64.
    Base64DecodeError,
    /// The trailer block is not a well-formed sequence of header lines.
    HeaderParsingError,
    /// A header value could not be converted to a string.
    HeaderValueError,
    /// The outgoing HTTP response envelope could not be built.
    HttpError(String),
    /// The response content-type is outside the accepted gRPC-Web set; the
    /// offending content-type is carried along.
    InvalidContentType(String),
    /// A trailer name is empty or holds an octet outside the header token set.
    InvalidHeaderName,
    /// A trailer value holds an octet that a header value may not carry.
    InvalidHeaderValue,
    /// The host HTTP facility reported a failure; the host's message is
    /// carried along.
    JsError(String),
    /// The response byte stream ended in the middle of a frame.
    MalformedResponse,
    /// The response has no content-type header.
    MissingContentTypeHeader,
    /// The response has no body stream.
    MissingResponseBody,
}

} // verus!
