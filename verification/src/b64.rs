//! The base64 text transport.
//!
//! A `-text` content-type announces that the whole wire stream is base64.
//! Decoding is quantum-aligned: only a prefix whose length is a multiple of
//! four is ever handed to the decoder, and what one 4-byte quantum decodes
//! to is a function of those four bytes alone.  That function is named, not
//! written out; everything the crate states about the text transport goes
//! through the name.

use vstd::prelude::*;

use crate::error::Error;

verus! {

/// What the standard base64 alphabet decodes one 4-byte quantum to, or
/// `None` when the quantum is not decodable on its own.
pub uninterp spec fn b64_quantum(q: Seq<u8>) -> Option<Seq<u8>>;

/// True when every 4-byte quantum of `s` decodes on its own; `s` is read
/// quantum by quantum, so this asks `s` to be 4-byte aligned as well.
pub open spec fn b64_chunks_ok(s: Seq<u8>) -> bool
    decreases s.len(),
{
    if s.len() < 4 {
        s.len() == 0
    } else {
        b64_quantum(s.take(4)) is Some && b64_chunks_ok(s.skip(4))
    }
}

/// The quantum-wise decoding of an aligned base64 byte string: the
/// concatenation of what each 4-byte quantum decodes to.
pub open spec fn b64_chunks(s: Seq<u8>) -> Seq<u8>
    decreases s.len(),
{
    if s.len() < 4 {
        Seq::empty()
    } else {
        (match b64_quantum(s.take(4)) {
            Some(d) => d,
            None => Seq::empty(),
        }) + b64_chunks(s.skip(4))
    }
}

/// Quantum-wise decoding distributes over an aligned split of the input.
pub proof fn lemma_b64_chunks_append(a: Seq<u8>, b: Seq<u8>)
    requires
        a.len() % 4 == 0,
    ensures
        b64_chunks(a + b) == b64_chunks(a) + b64_chunks(b),
        b64_chunks_ok(a + b) == (b64_chunks_ok(a) && b64_chunks_ok(b)),
    decreases a.len(),
{
    if a.len() == 0 {
        assert(a + b =~= b);
        assert(b64_chunks(a) + b64_chunks(b) =~= b64_chunks(b));
    } else {
        assert(a.len() >= 4);
        assert((a + b).take(4) =~= a.take(4));
        assert((a + b).skip(4) =~= a.skip(4) + b);
        assert(a.skip(4).len() % 4 == 0);
        lemma_b64_chunks_append(a.skip(4), b);
        assert(b64_chunks(a + b) =~= b64_chunks(a) + b64_chunks(b));
    }
}

/// Relies on `base64::Engine::decode` with the `STANDARD` engine: the
/// decoding of a 4-byte-aligned input is quantum-wise, so on success the
/// result is the concatenation of what the 4-byte quanta decode to, each
/// quantum decodable on its own; any failure is reported as a decode error.
#[verifier::external_body]
pub(crate) fn decode_base64(input: &[u8]) -> (r: Result<Vec<u8>, Error>)
    requires
        input@.len() % 4 == 0,
    ensures
        match r {
            Ok(v) => b64_chunks_ok(input@) && v@ == b64_chunks(input@) && (input@.len() == 4
                ==> b64_quantum(input@) == Some(v@)),
            Err(e) => e is Base64DecodeError,
        },
{
    match base64::Engine::decode(&base64::engine::general_purpose::STANDARD, input) {
        Ok(v) => Ok(v),
        Err(_) => Err(Error::Base64DecodeError),
    }
}

} // verus!
