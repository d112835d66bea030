//! A client-side transport for the gRPC-Web wire protocol.
//!
//! The crate decodes gRPC-Web response bodies: it classifies the response
//! content-type, undoes the optional base64 text transport, reassembles
//! length-prefixed frames out of an arbitrarily chunked byte stream, and
//! parses the terminal trailer block into an ordered header multimap.  The
//! request side prepares the fixed gRPC-Web headers and the destination URL.
//!
//! The decoder is written as a pull-driven state machine whose behaviour is
//! specified against a mathematical model of the wire format, so that framing,
//! chunk invariance and the uniqueness of the trailer block are proved rather
//! than tested.

pub mod b64;
pub mod byteops;
pub mod client;
pub mod content_type;
pub mod error;
pub mod frames;
pub mod headers;
pub mod options;
pub mod response_body;
pub mod trailers;

pub use client::Client;
pub use content_type::Encoding;
pub use error::Error;
pub use frames::ReadState;
pub use options::FetchOptions;
pub use response_body::BodyEvent;
pub use response_body::EncodedBytes;
pub use response_body::ResponseBody;
pub use trailers::Trailers;
