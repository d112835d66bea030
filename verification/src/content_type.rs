//! Classification of a response content-type into a wire encoding.
//!
//! A gRPC-Web response announces, through its `content-type` header, whether
//! the body bytes arrive raw or base64-encoded.  The header may carry extra
//! `;`-separated parameters in any position; the first token that belongs to
//! the accepted gRPC-Web family decides.

use vstd::prelude::*;
use vstd::string::StringSliceAdditionalSpecFns;

use crate::byteops::is_ws;
use crate::byteops::is_ws_byte;
use crate::byteops::lemma_trim_when_range;
use crate::byteops::range_eq;
use crate::byteops::trim_when;
use crate::error::Error;

verus! {

/// How the response body bytes are carried on the wire.
#[derive(Copy, Clone, PartialEq, Eq, Structural, Debug)]
pub enum Encoding {
    /// The body is the base64 text transport and must be decoded.
    Base64,
    /// The body carries the frame bytes directly.
    Binary,
}

/// The whitespace predicate used when trimming a content-type token.
pub open spec fn ws_pred() -> spec_fn(u8) -> bool {
    |b: u8| is_ws(b)
}

/// `s` with leading and trailing ASCII whitespace removed.
pub open spec fn spec_trim(s: Seq<u8>) -> Seq<u8> {
    trim_when(s, ws_pred())
}

/// The content-type tokens that select the binary encoding.
pub open spec fn accepted_binary(t: Seq<u8>) -> bool {
    t == "application/grpc-web".spec_bytes() || t == "application/grpc-web+proto".spec_bytes()
}

/// The content-type tokens that select the base64 text encoding.
pub open spec fn accepted_base64(t: Seq<u8>) -> bool {
    t == "application/grpc-web-text".spec_bytes() || t
        == "application/grpc-web-text+proto".spec_bytes()
}

/// The encoding that one `;`-separated token selects, if any, after
/// trimming surrounding whitespace.
pub open spec fn segment_encoding(seg: Seq<u8>) -> Option<Encoding> {
    let t = spec_trim(seg);
    if accepted_base64(t) {
        Some(Encoding::Base64)
    } else if accepted_binary(t) {
        Some(Encoding::Binary)
    } else {
        None
    }
}

/// The encoding selected by the remaining content-type bytes `s`, given the
/// bytes `seg` of the token read so far: the first matching token wins.
pub open spec fn encoding_of_from(s: Seq<u8>, seg: Seq<u8>) -> Option<Encoding>
    decreases s.len(),
{
    if s.len() == 0 {
        segment_encoding(seg)
    } else if s[0] == 0x3b {
        match segment_encoding(seg) {
            Some(e) => Some(e),
            None => encoding_of_from(s.skip(1), Seq::empty()),
        }
    } else {
        encoding_of_from(s.skip(1), seg.push(s[0]))
    }
}

/// The encoding selected by a whole content-type byte string, if any of its
/// `;`-separated tokens is in the accepted set.
pub open spec fn encoding_of(s: Seq<u8>) -> Option<Encoding> {
    encoding_of_from(s, Seq::empty())
}

impl Encoding {
    /// Classifies a content-type header value.  The first `;`-separated
    /// token in the accepted gRPC-Web set decides the encoding, wherever it
    /// stands among the parameters; a content-type with no such token is
    /// rejected and carried back inside the error.
    pub fn from_content_type(content_type: &str) -> (r: Result<Encoding, Error>)
        ensures
            match encoding_of(content_type.spec_bytes()) {
                Some(e) => r == Ok::<Encoding, Error>(e),
                None => r matches Err(Error::InvalidContentType(s)) && s@ == content_type@,
            },
    {
        let bytes: &[u8] = content_type.as_bytes();
        let ghost all: Seq<u8> = bytes@;
        let mut start: usize = 0;
        let mut i: usize = 0;
        proof {
            assert(all.skip(0) =~= all);
            assert(all.subrange(0, 0) =~= Seq::<u8>::empty());
        }
        while i < bytes.len()
            invariant
                all == content_type.spec_bytes(),
                bytes@ == all,
                start <= i <= all.len(),
                encoding_of(all) == encoding_of_from(
                    all.skip(i as int),
                    all.subrange(start as int, i as int),
                ),
            decreases all.len() - i,
        {
            if bytes[i] == 0x3b {
                match segment_match(bytes, start, i) {
                    Some(e) => {
                        return Ok(e);
                    },
                    None => {
                        proof {
                            assert(all.skip(i as int)[0] == 0x3b);
                            assert(all.skip(i as int).skip(1) =~= all.skip(i + 1));
                            assert(all.subrange(i + 1, i + 1) =~= Seq::<u8>::empty());
                        }
                        start = i + 1;
                    },
                }
            } else {
                proof {
                    assert(all.skip(i as int)[0] == all[i as int]);
                    assert(all.skip(i as int).skip(1) =~= all.skip(i + 1));
                    assert(all.subrange(start as int, i as int).push(all[i as int]) =~= all.subrange(
                        start as int,
                        i + 1,
                    ));
                }
            }
            i = i + 1;
        }
        proof {
            assert(all.skip(i as int) =~= Seq::<u8>::empty());
        }
        match segment_match(bytes, start, i) {
            Some(e) => Ok(e),
            None => Err(Error::InvalidContentType(content_type.to_owned())),
        }
    }
}

/// Trims the token `bytes[start..end]` and matches it against the accepted
/// content-type set.
fn segment_match(bytes: &[u8], start: usize, end: usize) -> (r: Option<Encoding>)
    requires
        start <= end <= bytes@.len(),
    ensures
        r == segment_encoding(bytes@.subrange(start as int, end as int)),
{
    let mut lo: usize = start;
    let mut hi: usize = end;
    while lo < hi && is_ws_byte(bytes[lo])
        invariant
            start <= lo <= hi <= end <= bytes@.len(),
            forall|k: int| start <= k < lo ==> is_ws(bytes@[k]),
            hi == end,
        decreases hi - lo,
    {
        lo = lo + 1;
    }
    while lo < hi && is_ws_byte(bytes[hi - 1])
        invariant
            start <= lo <= hi <= end <= bytes@.len(),
            forall|k: int| start <= k < lo ==> is_ws(bytes@[k]),
            forall|k: int| hi <= k < end ==> is_ws(bytes@[k]),
            lo < hi ==> !is_ws(bytes@[lo as int]),
        decreases hi - lo,
    {
        hi = hi - 1;
    }
    proof {
        lemma_trim_when_range(bytes@, ws_pred(), start as int, end as int, lo as int, hi as int);
    }
    if range_eq(bytes, lo, hi, "application/grpc-web-text".as_bytes()) {
        Some(Encoding::Base64)
    } else if range_eq(bytes, lo, hi, "application/grpc-web-text+proto".as_bytes()) {
        Some(Encoding::Base64)
    } else if range_eq(bytes, lo, hi, "application/grpc-web".as_bytes()) {
        Some(Encoding::Binary)
    } else if range_eq(bytes, lo, hi, "application/grpc-web+proto".as_bytes()) {
        Some(Encoding::Binary)
    } else {
        None
    }
}

} // verus!
