//! The response-body decoder.
//!
//! [`EncodedBytes`] is an append-only byte sink that hides the transport
//! encoding: raw chunks go in, a decoded byte view comes out, with base64
//! residue carried across appends.  [`ResponseBody`] drives the frame
//! reassembler over that view as a pull-driven producer: each pull yields
//! the next data frame, the parsed trailer multimap, the end of the
//! stream, or a request for more input.  Both refine the machine model of
//! [`crate::frames`], so every pull is pinned to the configuration the
//! machine reaches on the decoded stream.

use vstd::prelude::*;
use vstd::string::StringSliceAdditionalSpecFns;

use crate::b64::b64_chunks;
use crate::b64::b64_chunks_ok;
use crate::b64::decode_base64;
use crate::b64::lemma_b64_chunks_append;
use crate::byteops::range_to_vec;
use crate::byteops::read_be32;
use crate::byteops::split_front;
use crate::content_type::encoding_of;
use crate::content_type::Encoding;
use crate::error::Error;
use crate::frames::can_step;
use crate::frames::is_data_flag;
use crate::frames::lemma_feed_append;
use crate::frames::lemma_run_extend;
use crate::frames::lemma_run_monotone;
use crate::frames::machine_of;
use crate::frames::run;
use crate::frames::start;
use crate::frames::step;
use crate::frames::with_more;
use crate::frames::Machine;
use crate::frames::ReadState;
use crate::trailers::parse_trailer_payload;
use crate::trailers::parse_trailers;
use crate::trailers::Trailers;
use crate::trailers::TrailerFault;

verus! {

/// The decoded byte view that a whole raw wire body yields under an
/// encoding: the bytes themselves, or their quantum-wise base64 decoding
/// (which reads exactly the aligned prefix).
pub open spec fn decoded_stream(e: Encoding, raw: Seq<u8>) -> Seq<u8> {
    match e {
        Encoding::Binary => raw,
        Encoding::Base64 => b64_chunks(raw),
    }
}

/// Base64 equivalence: a base64 text body that decodes to a binary stream
/// drives the frame machine to the configuration of that binary stream, so
/// the emitted frames and trailer are the same under either transport.
pub proof fn lemma_base64_equivalence(raw: Seq<u8>, bin: Seq<u8>)
    requires
        raw.len() % 4 == 0,
        b64_chunks_ok(raw),
        b64_chunks(raw) == bin,
    ensures
        decoded_stream(Encoding::Base64, raw) == decoded_stream(Encoding::Binary, bin),
        machine_of(decoded_stream(Encoding::Base64, raw)) == machine_of(
            decoded_stream(Encoding::Binary, bin),
        ),
{
}

/// An append-only byte sink that hides the transport encoding.
///
/// Raw bytes are appended as they arrive from the wire; the decoded view is
/// consumed from the front by the frame reassembler.  In base64 mode only
/// 4-byte-aligned prefixes are ever decoded and the unaligned residue is
/// retained for the next append, so the residue is always shorter than four
/// bytes.
pub struct EncodedBytes {
    encoding: Encoding,
    raw: Vec<u8>,
    buf: Vec<u8>,
    consumed: Ghost<Seq<u8>>,
    raw_history: Ghost<Seq<u8>>,
}

impl EncodedBytes {
    /// The encoding this buffer decodes.
    pub closed spec fn spec_encoding(self) -> Encoding {
        self.encoding
    }

    /// The decoded bytes not yet taken.
    pub closed spec fn spec_buf(self) -> Seq<u8> {
        self.buf@
    }

    /// The decoded bytes already taken.
    pub closed spec fn spec_consumed(self) -> Seq<u8> {
        self.consumed@
    }

    /// Every raw byte appended so far.
    pub closed spec fn spec_raw_history(self) -> Seq<u8> {
        self.raw_history@
    }

    /// The whole decoded view produced so far: taken bytes, followed by the
    /// bytes still waiting.
    pub open spec fn spec_decoded(self) -> Seq<u8> {
        self.spec_consumed() + self.spec_buf()
    }

    /// The buffer's invariant: the raw history splits into a decoded
    /// aligned prefix and the retained residue, and the decoded view is the
    /// quantum-wise decoding of that prefix.  In binary mode the decoded
    /// view is the raw history itself.
    pub closed spec fn wf(self) -> bool {
        match self.encoding {
            Encoding::Binary => self.raw@.len() == 0 && self.raw_history@ == self.consumed@
                + self.buf@,
            Encoding::Base64 => {
                let src = self.raw_history@.take(
                    self.raw_history@.len() - self.raw@.len(),
                );
                &&& self.raw@.len() < 4
                &&& self.raw@.len() <= self.raw_history@.len()
                &&& self.raw_history@.skip(self.raw_history@.len() - self.raw@.len())
                    == self.raw@
                &&& src.len() % 4 == 0
                &&& b64_chunks_ok(src)
                &&& self.consumed@ + self.buf@ == b64_chunks(src)
            },
        }
    }

    /// A well-formed buffer's decoded view is the decoded stream of its raw
    /// history.
    pub proof fn lemma_decoded(self)
        requires
            self.wf(),
        ensures
            self.spec_decoded() == decoded_stream(self.spec_encoding(), self.spec_raw_history()),
    {
        match self.encoding {
            Encoding::Binary => {},
            Encoding::Base64 => {
                let rh = self.raw_history@;
                let src = rh.take(rh.len() - self.raw@.len());
                lemma_b64_chunks_append(src, self.raw@);
                assert(src + self.raw@ =~= rh);
                assert(b64_chunks(self.raw@) =~= Seq::<u8>::empty());
                assert(b64_chunks(src) + b64_chunks(self.raw@) =~= b64_chunks(src));
            },
        }
    }

    /// An empty buffer for the given encoding.
    pub fn from_encoding(encoding: Encoding) -> (r: EncodedBytes)
        ensures
            r.wf(),
            r.spec_encoding() == encoding,
            r.spec_buf() == Seq::<u8>::empty(),
            r.spec_consumed() == Seq::<u8>::empty(),
            r.spec_raw_history() == Seq::<u8>::empty(),
    {
        let r = EncodedBytes {
            encoding,
            raw: Vec::new(),
            buf: Vec::new(),
            consumed: Ghost(Seq::empty()),
            raw_history: Ghost(Seq::empty()),
        };
        proof {
            if encoding is Base64 {
                let rh = r.raw_history@;
                assert(rh.take(0) =~= Seq::<u8>::empty());
                assert(rh.skip(0) =~= r.raw@);
                assert(r.consumed@ + r.buf@ =~= b64_chunks(rh.take(0)));
            } else {
                assert(r.raw_history@ =~= r.consumed@ + r.buf@);
            }
        }
        r
    }

    /// A buffer for the encoding that the response content-type selects;
    /// a content-type outside the accepted set is rejected unchanged.
    pub fn new(content_type: &str) -> (r: Result<EncodedBytes, Error>)
        ensures
            match encoding_of(content_type.spec_bytes()) {
                Some(e) => r matches Ok(b) && b.wf() && b.spec_encoding() == e
                    && b.spec_raw_history() == Seq::<u8>::empty() && b.spec_buf()
                    == Seq::<u8>::empty() && b.spec_consumed() == Seq::<u8>::empty(),
                None => r matches Err(Error::InvalidContentType(s)) && s@ == content_type@,
            },
    {
        match Encoding::from_content_type(content_type) {
            Ok(e) => Ok(EncodedBytes::from_encoding(e)),
            Err(err) => Err(err),
        }
    }

    /// Appends a chunk of raw wire bytes, decoding what it can.  In binary
    /// mode the decoded view grows by the chunk itself and the append
    /// cannot fail; in base64 mode the longest aligned prefix of residue
    /// and chunk is decoded and the rest retained, and a malformed prefix
    /// is reported with the buffer left untouched.
    fn append(&mut self, bytes: &[u8]) -> (r: Result<(), Error>)
        requires
            old(self).wf(),
        ensures
            final(self).spec_encoding() == old(self).spec_encoding(),
            final(self).spec_consumed() == old(self).spec_consumed(),
            match r {
                Ok(()) => {
                    &&& final(self).wf()
                    &&& final(self).spec_raw_history() == old(self).spec_raw_history() + bytes@
                    &&& final(self).spec_decoded() == decoded_stream(
                        old(self).spec_encoding(),
                        old(self).spec_raw_history() + bytes@,
                    )
                    &&& old(self).spec_decoded().is_prefix_of(final(self).spec_decoded())
                    &&& final(self).spec_buf() == old(self).spec_buf()
                        + final(self).spec_decoded().skip(old(self).spec_decoded().len() as int)
                },
                Err(e) => e is Base64DecodeError && *final(self) == *old(self)
                    && (old(self).spec_encoding() is Base64),
            },
            (old(self).spec_encoding() is Binary) ==> r is Ok,
    {
        proof {
            old(self).lemma_decoded();
        }
        match self.encoding {
            Encoding::Binary => {
                let mut tail = range_to_vec(bytes, 0, bytes.len());
                proof {
                    assert(tail@ =~= bytes@);
                }
                self.buf.append(&mut tail);
                self.raw_history = Ghost(self.raw_history@ + bytes@);
                proof {
                    assert(self.raw_history@ =~= self.consumed@ + self.buf@);
                    assert(self.spec_decoded() =~= decoded_stream(
                        self.encoding,
                        self.raw_history@,
                    ));
                    assert(self.spec_decoded().skip(old(self).spec_decoded().len() as int)
                        =~= bytes@);
                    assert(old(self).spec_decoded().is_prefix_of(self.spec_decoded()));
                }
                Ok(())
            },
            Encoding::Base64 => {
                let ghost rh = self.raw_history@;
                let ghost src = rh.take(rh.len() - self.raw@.len());
                let mut all = range_to_vec(self.raw.as_slice(), 0, self.raw.len());
                let mut tail = range_to_vec(bytes, 0, bytes.len());
                all.append(&mut tail);
                proof {
                    assert(all@ =~= self.raw@ + bytes@);
                }
                let k = (all.len() / 4) * 4;
                proof {
                    assert(k <= all@.len() && all@.len() - k < 4 && k % 4 == 0) by (nonlinear_arith)
                        requires
                            k == (all@.len() / 4) * 4,
                    ;
                }
                let head = range_to_vec(all.as_slice(), 0, k);
                match decode_base64(head.as_slice()) {
                    Ok(mut v) => {
                        let ghost decoded_pre = self.consumed@ + self.buf@;
                        self.buf.append(&mut v);
                        let rest = range_to_vec(all.as_slice(), k, all.len());
                        self.raw = rest;
                        self.raw_history = Ghost(rh + bytes@);
                        proof {
                            let rh2 = self.raw_history@;
                            let src2 = rh2.take(rh2.len() - self.raw@.len());
                            assert(rh2 =~= src + (old(self).raw@ + bytes@));
                            assert(rh2 =~= src + all@);
                            assert(src2 =~= src + head@);
                            lemma_b64_chunks_append(src, head@);
                            assert(rh2.skip(rh2.len() - self.raw@.len()) =~= self.raw@);
                            assert(self.consumed@ + self.buf@ =~= decoded_pre + b64_chunks(head@));
                            assert(self.consumed@ + self.buf@ =~= b64_chunks(src2));
                            assert(self.wf());
                            self.lemma_decoded();
                            assert(old(self).spec_decoded().is_prefix_of(self.spec_decoded()));
                            assert(self.spec_buf() =~= old(self).spec_buf() + self.spec_decoded()
                                .skip(old(self).spec_decoded().len() as int));
                        }
                        Ok(())
                    },
                    Err(e) => Err(e),
                }
            },
        }
    }

    /// Splits off and returns the first `n` bytes of the decoded view.
    fn take(&mut self, n: usize) -> (r: Vec<u8>)
        requires
            old(self).wf(),
            n <= old(self).spec_buf().len(),
        ensures
            final(self).wf(),
            r@ == old(self).spec_buf().take(n as int),
            final(self).spec_buf() == old(self).spec_buf().skip(n as int),
            final(self).spec_consumed() == old(self).spec_consumed() + r@,
            final(self).spec_decoded() == old(self).spec_decoded(),
            final(self).spec_encoding() == old(self).spec_encoding(),
            final(self).spec_raw_history() == old(self).spec_raw_history(),
    {
        let r = split_front(&mut self.buf, n);
        self.consumed = Ghost(self.consumed@ + r@);
        proof {
            assert(r@ =~= old(self).spec_buf().take(n as int));
            assert(self.consumed@ + self.buf@ =~= old(self).consumed@ + old(self).buf@);
            assert(self.spec_decoded() =~= old(self).spec_decoded());
        }
        r
    }

    /// How many decoded bytes are waiting.
    fn len(&self) -> (n: usize)
        ensures
            n == self.spec_buf().len(),
    {
        self.buf.len()
    }

    /// True when no decoded byte is waiting.
    fn is_empty(&self) -> (r: bool)
        ensures
            r == (self.spec_buf().len() == 0),
    {
        self.buf.len() == 0
    }
}

/// One outcome of pulling on the response body.
#[derive(Debug)]
pub enum BodyEvent {
    /// The next data frame, verbatim with its 5-byte header.
    Data(Vec<u8>),
    /// The parsed trailer multimap, yielded exactly once, after all data.
    Trailers(Trailers),
    /// Nothing more will come: the trailers were consumed, or the body
    /// failed earlier.
    Finished,
    /// Nothing can be produced before more wire bytes are appended.
    NeedData,
}

/// The pull-driven response-body decoder.
///
/// Wire chunks are appended as they arrive; [`ResponseBody::next_frame`]
/// yields the reassembled data frames one by one, the parsed trailers
/// once, and the end of the stream, asking for more input when the
/// buffered bytes do not determine the next unit.  Each pull is specified
/// against the machine configuration of the decoded stream, so the frames
/// handed out are exactly the frames of the wire bytes, in order.
pub struct ResponseBody {
    buf: EncodedBytes,
    incomplete_data: Vec<u8>,
    data: Option<Vec<u8>>,
    trailer: Option<Trailers>,
    state: ReadState,
    finished_stream: bool,
    trailer_taken: bool,
    failed: bool,
    emitted: Ghost<Seq<Seq<u8>>>,
    trailer_raw: Ghost<Option<Seq<u8>>>,
}

impl ResponseBody {
    /// The encoding of the underlying byte stream.
    pub closed spec fn spec_encoding(self) -> Encoding {
        self.buf.spec_encoding()
    }

    /// Every raw wire byte appended so far.
    pub closed spec fn spec_raw_history(self) -> Seq<u8> {
        self.buf.spec_raw_history()
    }

    /// The decoded byte stream the frame machine runs over.
    pub closed spec fn spec_decoded(self) -> Seq<u8> {
        self.buf.spec_decoded()
    }

    /// The data frames already handed out by [`ResponseBody::next_frame`].
    pub closed spec fn spec_emitted(self) -> Seq<Seq<u8>> {
        self.emitted@
    }

    /// True once an error has been surfaced; the body is terminal.
    pub closed spec fn spec_failed(self) -> bool {
        self.failed
    }

    /// True once the end of the wire stream has been signalled.
    pub closed spec fn spec_finished(self) -> bool {
        self.finished_stream
    }

    /// True once the trailers have been yielded.
    pub closed spec fn spec_trailer_taken(self) -> bool {
        self.trailer_taken
    }

    /// The machine configuration that the decoded stream determines.
    pub open spec fn spec_machine(self) -> Machine {
        machine_of(self.spec_decoded())
    }

    /// The frame assembled but not yet handed out, as a sequence of zero
    /// or one frames.
    spec fn queued(self) -> Seq<Seq<u8>> {
        match self.data {
            Some(d) => seq![d@],
            None => Seq::empty(),
        }
    }

    /// The decoder's configuration in the machine model.
    spec fn abs(self) -> Machine {
        Machine {
            frames: self.emitted@ + self.queued(),
            trailer: self.trailer_raw@,
            state: self.state,
            pending: self.incomplete_data@,
            buf: self.buf.spec_buf(),
        }
    }

    /// The decoder's invariant: its configuration runs to the machine
    /// configuration of the decoded stream, and the trailer bookkeeping is
    /// consistent with the state.
    pub closed spec fn wf(self) -> bool {
        &&& self.buf.wf()
        &&& run(self.abs()) == self.spec_machine()
        &&& (self.state is Done) == (self.trailer_raw@ is Some)
        &&& (self.state is Done && !self.failed && !self.trailer_taken) ==> (match self.trailer {
            Some(t) => parse_trailer_payload(self.trailer_raw@.unwrap()) == Ok::<
                Seq<(Seq<u8>, Seq<u8>)>,
                TrailerFault,
            >(t@),
            None => false,
        })
        &&& !(self.state is Done) ==> (self.trailer is None && !self.trailer_taken)
        &&& (self.state is Done) ==> self.data is None
        &&& self.trailer_taken ==> self.state is Done
    }

    /// An empty decoder for the given encoding.
    pub fn from_encoding(encoding: Encoding) -> (r: ResponseBody)
        ensures
            r.wf(),
            r.spec_encoding() == encoding,
            r.spec_raw_history() == Seq::<u8>::empty(),
            r.spec_emitted() == Seq::<Seq<u8>>::empty(),
            !r.spec_failed(),
            !r.spec_finished(),
            !r.spec_trailer_taken(),
    {
        let r = ResponseBody {
            buf: EncodedBytes::from_encoding(encoding),
            incomplete_data: Vec::new(),
            data: None,
            trailer: None,
            state: ReadState::CompressionFlag,
            finished_stream: false,
            trailer_taken: false,
            failed: false,
            emitted: Ghost(Seq::empty()),
            trailer_raw: Ghost(None),
        };
        proof {
            assert(r.abs().frames =~= start().frames);
            assert(r.abs() =~= start());
            assert(r.spec_decoded() =~= Seq::<u8>::empty());
            assert(with_more(start(), r.spec_decoded()).buf =~= start().buf);
            assert(with_more(start(), r.spec_decoded()) =~= start());
            assert(!can_step(start()));
        }
        r
    }

    /// Builds the decoder for a response from its content-type.  A
    /// content-type outside the accepted set is rejected here, before any
    /// body byte is consumed.
    pub fn new(content_type: &str) -> (r: Result<ResponseBody, Error>)
        ensures
            match encoding_of(content_type.spec_bytes()) {
                Some(e) => r matches Ok(b) && b.wf() && b.spec_encoding() == e
                    && b.spec_raw_history() == Seq::<u8>::empty() && b.spec_emitted()
                    == Seq::<Seq<u8>>::empty() && !b.spec_failed() && !b.spec_finished()
                    && !b.spec_trailer_taken(),
                None => r matches Err(Error::InvalidContentType(s)) && s@ == content_type@,
            },
    {
        match Encoding::from_content_type(content_type) {
            Ok(e) => Ok(ResponseBody::from_encoding(e)),
            Err(err) => Err(err),
        }
    }

    /// True once an error has been surfaced; the body is terminal.
    pub fn has_failed(&self) -> (r: bool)
        ensures
            r == self.spec_failed(),
    {
        self.failed
    }

    /// True once the end of the wire stream has been signalled.
    pub fn is_finished(&self) -> (r: bool)
        ensures
            r == self.spec_finished(),
    {
        self.finished_stream
    }

    /// Records that the wire stream has ended; whether that is legal is
    /// decided by the next pull.
    pub fn finish(&mut self)
        requires
            old(self).wf(),
        ensures
            final(self).wf(),
            final(self).spec_finished(),
            final(self).spec_encoding() == old(self).spec_encoding(),
            final(self).spec_raw_history() == old(self).spec_raw_history(),
            final(self).spec_decoded() == old(self).spec_decoded(),
            final(self).spec_emitted() == old(self).spec_emitted(),
            final(self).spec_failed() == old(self).spec_failed(),
            final(self).spec_trailer_taken() == old(self).spec_trailer_taken(),
    {
        self.finished_stream = true;
        proof {
            assert(self.abs() =~= old(self).abs());
        }
    }

    /// Appends a chunk of raw wire bytes.  In binary mode this cannot
    /// fail; in base64 mode a malformed aligned prefix is reported once and
    /// the body becomes terminal.
    pub fn append(&mut self, bytes: &[u8]) -> (r: Result<(), Error>)
        requires
            old(self).wf(),
            !old(self).spec_failed(),
            !old(self).spec_finished(),
        ensures
            final(self).wf(),
            final(self).spec_encoding() == old(self).spec_encoding(),
            final(self).spec_emitted() == old(self).spec_emitted(),
            !final(self).spec_finished(),
            final(self).spec_trailer_taken() == old(self).spec_trailer_taken(),
            match r {
                Ok(()) => !final(self).spec_failed() && final(self).spec_raw_history() == old(self).spec_raw_history() + bytes@,
                Err(e) => e is Base64DecodeError && final(self).spec_failed() && final(self).spec_raw_history() == old(self).spec_raw_history(),
            },
            (old(self).spec_encoding() is Binary) ==> r is Ok,
    {
        let ghost pre = self.abs();
        let ghost decoded_pre = self.spec_decoded();
        match self.buf.append(bytes) {
            Ok(()) => {
                proof {
                    let delta = self.buf.spec_decoded().skip(decoded_pre.len() as int);
                    assert(self.abs() =~= with_more(pre, delta));
                    lemma_run_extend(pre, delta);
                    lemma_feed_append(start(), decoded_pre, delta);
                    assert(decoded_pre + delta =~= self.spec_decoded());
                    assert(with_more(start(), decoded_pre + delta) =~= with_more(
                        start(),
                        self.spec_decoded(),
                    ));
                    assert(run(self.abs()) == self.spec_machine());
                }
                Ok(())
            },
            Err(e) => {
                self.failed = true;
                proof {
                    assert(self.abs() =~= pre);
                }
                Err(e)
            },
        }
    }

    /// Drives the reassembler over the buffered decoded bytes until it has
    /// produced one data frame, read the trailer, or run short of bytes.
    fn advance(&mut self) -> (r: Result<(), Error>)
        requires
            old(self).wf(),
            !old(self).spec_failed(),
            old(self).data is None,
        ensures
            final(self).wf(),
            final(self).spec_encoding() == old(self).spec_encoding(),
            final(self).spec_raw_history() == old(self).spec_raw_history(),
            final(self).spec_decoded() == old(self).spec_decoded(),
            final(self).spec_emitted() == old(self).spec_emitted(),
            final(self).spec_finished() == old(self).spec_finished(),
            final(self).spec_trailer_taken() == old(self).spec_trailer_taken(),
            match r {
                Ok(()) => !final(self).spec_failed() && (final(self).data is Some || !can_step(
                    final(self).abs(),
                )),
                Err(e) => {
                    &&& final(self).spec_failed()
                    &&& final(self).data is None
                    &&& !(old(self).state is Done)
                    &&& final(self).spec_machine().state is Done
                    &&& final(self).spec_machine().frames == final(self).spec_emitted()
                    &&& (match parse_trailer_payload(final(self).spec_machine().trailer.unwrap()) {
                        Ok(_) => false,
                        Err(TrailerFault::Line) => e is HeaderParsingError,
                        Err(TrailerFault::Name) => e is InvalidHeaderName,
                        Err(TrailerFault::Value) => e is InvalidHeaderValue,
                    })
                },
            },
    {
        loop
            invariant
                self.wf(),
                !self.failed,
                self.data is None,
                self.spec_encoding() == old(self).spec_encoding(),
                self.spec_raw_history() == old(self).spec_raw_history(),
                self.spec_decoded() == old(self).spec_decoded(),
                self.spec_emitted() == old(self).spec_emitted(),
                self.spec_finished() == old(self).spec_finished(),
                self.spec_trailer_taken() == old(self).spec_trailer_taken(),
                (old(self).state is Done) ==> self.state is Done,
            decreases self.buf.spec_buf().len(), crate::frames::rank(self.state),
        {
            let ghost pre = self.abs();
            match self.state {
                ReadState::CompressionFlag => {
                    if self.buf.is_empty() {
                        return Ok(());
                    }
                    let flag = self.buf.take(1);
                    let f0 = flag[0];
                    proof {
                        assert(can_step(pre));
                        assert(flag@[0] == pre.buf[0]);
                    }
                    if f0 & 0x80 == 0 {
                        self.incomplete_data.push(f0);
                        self.state = ReadState::DataLength;
                        proof {
                            assert(is_data_flag(pre.buf[0]));
                            assert(self.abs().pending =~= step(pre).pending);
                            assert(self.abs() =~= step(pre));
                        }
                    } else {
                        self.state = ReadState::TrailerLength;
                        proof {
                            assert(!is_data_flag(pre.buf[0]));
                            assert(self.abs() =~= step(pre));
                        }
                    }
                },
                ReadState::DataLength => {
                    if self.buf.len() < 4 {
                        return Ok(());
                    }
                    let mut lenb = self.buf.take(4);
                    let ghost lb = lenb@;
                    let n = read_be32(lenb.as_slice(), 0);
                    self.incomplete_data.append(&mut lenb);
                    self.state = ReadState::Data(n);
                    proof {
                        assert(can_step(pre));
                        assert(lb.subrange(0, 4) =~= lb);
                        assert(lb =~= pre.buf.take(4));
                        assert(self.abs().pending =~= step(pre).pending);
                        assert(self.abs() =~= step(pre));
                    }
                },
                ReadState::Data(n) => {
                    let need = n as usize;
                    if self.buf.len() < need {
                        return Ok(());
                    }
                    let mut payload = self.buf.take(need);
                    self.incomplete_data.append(&mut payload);
                    let mut frame: Vec<u8> = Vec::new();
                    core::mem::swap(&mut frame, &mut self.incomplete_data);
                    self.data = Some(frame);
                    self.state = ReadState::CompressionFlag;
                    proof {
                        assert(can_step(pre));
                        assert(self.data.unwrap()@ =~= pre.pending + pre.buf.take(n as int));
                        assert(self.abs().frames =~= step(pre).frames);
                        assert(self.abs().pending =~= step(pre).pending);
                        assert(self.abs() =~= step(pre));
                        assert(run(self.abs()) == self.spec_machine());
                    }
                    return Ok(());
                },
                ReadState::TrailerLength => {
                    if self.buf.len() < 4 {
                        return Ok(());
                    }
                    let lenb = self.buf.take(4);
                    let m = read_be32(lenb.as_slice(), 0);
                    self.state = ReadState::Trailer(m);
                    proof {
                        assert(can_step(pre));
                        assert(lenb@.subrange(0, 4) =~= lenb@);
                        assert(lenb@ =~= pre.buf.take(4));
                        assert(self.abs() =~= step(pre));
                    }
                },
                ReadState::Trailer(m) => {
                    let need = m as usize;
                    if self.buf.len() < need {
                        return Ok(());
                    }
                    let mut tb = self.buf.take(need);
                    let ghost tbs = tb@;
                    tb.push(0x0a);
                    let parsed = parse_trailers(tb.as_slice());
                    self.trailer_raw = Ghost(Some(tbs));
                    self.state = ReadState::Done;
                    proof {
                        assert(can_step(pre));
                        assert(tbs =~= pre.buf.take(m as int));
                        assert(self.abs() =~= step(pre));
                    }
                    match parsed {
                        Ok(t) => {
                            self.trailer = Some(t);
                        },
                        Err(e) => {
                            self.failed = true;
                            proof {
                                assert(!can_step(self.abs()));
                                assert(run(self.abs()) == self.abs());
                                assert(self.abs() == self.spec_machine());
                                assert(self.emitted@ + self.queued() =~= self.emitted@);
                            }
                            return Err(e);
                        },
                    }
                },
                ReadState::Done => {
                    return Ok(());
                },
            }
        }
    }

    /// Pulls the next unit out of the decoder: the next data frame if the
    /// buffered bytes determine one, the trailers once the trailer frame
    /// has been read, the end of the stream after that, and otherwise
    /// either a request for more input or, if the stream already ended
    /// mid-frame, the malformed-response error.  After an error the body
    /// is terminal and only reports the end of the stream.
    pub fn next_frame(&mut self) -> (r: Result<BodyEvent, Error>)
        requires
            old(self).wf(),
        ensures
            final(self).wf(),
            final(self).spec_encoding() == old(self).spec_encoding(),
            final(self).spec_raw_history() == old(self).spec_raw_history(),
            final(self).spec_decoded() == old(self).spec_decoded(),
            final(self).spec_finished() == old(self).spec_finished(),
            old(self).spec_failed() ==> (r matches Ok(ev) && ev is Finished) && final(self).spec_failed(),
            (!old(self).spec_failed() && old(self).spec_trailer_taken()) ==> (r matches Ok(ev)
                && ev is Finished) && final(self).spec_emitted() == old(self).spec_emitted(),
            (!old(self).spec_failed() && !old(self).spec_trailer_taken()) ==> ({
                let m = machine_of(old(self).spec_decoded());
                let k = old(self).spec_emitted().len() as int;
                if k < m.frames.len() {
                    (r matches Ok(ev) && ev matches BodyEvent::Data(d) && d@ == m.frames[k])
                        && final(self).spec_emitted() == old(self).spec_emitted().push(m.frames[k])
                        && !final(self).spec_failed() && !final(self).spec_trailer_taken()
                } else if m.state is Done {
                    match parse_trailer_payload(m.trailer.unwrap()) {
                        Ok(pairs) => (r matches Ok(ev) && ev matches BodyEvent::Trailers(t) && t@
                            == pairs) && final(self).spec_trailer_taken() && !final(self).spec_failed() && final(self).spec_emitted() == old(self).spec_emitted(),
                        Err(TrailerFault::Line) => (r matches Err(e) && e is HeaderParsingError)
                            && final(self).spec_failed(),
                        Err(TrailerFault::Name) => (r matches Err(e) && e is InvalidHeaderName)
                            && final(self).spec_failed(),
                        Err(TrailerFault::Value) => (r matches Err(e) && e is InvalidHeaderValue)
                            && final(self).spec_failed(),
                    }
                } else if old(self).spec_finished() {
                    (r matches Err(e) && e is MalformedResponse) && final(self).spec_failed()
                } else {
                    (r matches Ok(ev) && ev is NeedData) && final(self).spec_emitted() == old(self).spec_emitted() && !final(self).spec_failed() && !final(self).spec_trailer_taken()
                }
            }),
    {
        if self.failed {
            return Ok(BodyEvent::Finished);
        }
        let first = self.data.take();
        match first {
            Some(d) => {
                proof {
                    lemma_run_monotone(old(self).abs());
                    assert(old(self).abs().frames[old(self).emitted@.len() as int] == d@);
                }
                self.emitted = Ghost(self.emitted@.push(d@));
                proof {
                    assert(self.abs().frames =~= old(self).abs().frames);
                    assert(self.abs() =~= old(self).abs());
                }
                return Ok(BodyEvent::Data(d));
            },
            None => {},
        }
        match self.advance() {
            Ok(()) => {},
            Err(e) => {
                return Err(e);
            },
        }
        let ghost mid = self.abs();
        let second = self.data.take();
        match second {
            Some(d) => {
                proof {
                    lemma_run_monotone(mid);
                    assert(mid.frames[self.emitted@.len() as int] == d@);
                }
                self.emitted = Ghost(self.emitted@.push(d@));
                proof {
                    assert(self.abs().frames =~= mid.frames);
                    assert(self.abs() =~= mid);
                }
                return Ok(BodyEvent::Data(d));
            },
            None => {},
        }
        proof {
            assert(!can_step(self.abs()));
            assert(run(self.abs()) == self.abs());
            assert(self.abs() == self.spec_machine());
            assert(self.emitted@ + self.queued() =~= self.emitted@);
        }
        match self.state {
            ReadState::Done => {
                if !self.trailer_taken {
                    let t = self.trailer.take();
                    match t {
                        Some(tr) => {
                            self.trailer_taken = true;
                            proof {
                                assert(self.abs() =~= mid);
                            }
                            return Ok(BodyEvent::Trailers(tr));
                        },
                        None => {
                            proof {
                                assert(false);
                            }
                            return Ok(BodyEvent::Finished);
                        },
                    }
                } else {
                    return Ok(BodyEvent::Finished);
                }
            },
            _ => {},
        }
        if self.finished_stream {
            self.failed = true;
            return Err(Error::MalformedResponse);
        }
        Ok(BodyEvent::NeedData)
    }
}

impl Default for ResponseBody {
    /// An already-drained body: it carried no data frame and an empty
    /// trailer block, both long since consumed, so every pull reports the
    /// end of the stream.
    fn default() -> (d: ResponseBody)
        ensures
            d.wf(),
            d.spec_trailer_taken(),
            !d.spec_failed(),
    {
        let mut d = ResponseBody::from_encoding(Encoding::Binary);
        let mut wire: Vec<u8> = Vec::new();
        wire.push(0x80);
        wire.push(0);
        wire.push(0);
        wire.push(0);
        wire.push(0);
        proof {
            assert(wire@ =~= seq![0x80u8, 0u8, 0u8, 0u8, 0u8]);
        }
        let r = d.append(wire.as_slice());
        proof {
            let tf = wire@;
            assert(!(0x80u8 & 0x80 == 0)) by (bit_vector);
            assert(crate::frames::frame_wf(tf, false));
            crate::frames::lemma_framing_round_trip(Seq::empty(), tf);
            assert(crate::frames::concat_all(Seq::empty()) + tf =~= tf);
            assert(Seq::<u8>::empty() + tf =~= tf);
            assert(d.spec_decoded() =~= tf);
            assert(machine_of(d.spec_decoded()).state is Done);
            assert(machine_of(d.spec_decoded()).trailer == Some(tf.subrange(5, 5)));
            assert(tf.subrange(5, 5) =~= Seq::<u8>::empty());
            let sentinel = Seq::<u8>::empty().push(0x0a);
            assert(sentinel[0] == 0x0a && sentinel.len() == 1);
            assert(crate::byteops::find_byte(sentinel, 0x0a) == 0);
            assert(sentinel.take(0) =~= Seq::<u8>::empty());
            assert(parse_trailer_payload(Seq::<u8>::empty()) == Ok::<
                Seq<(Seq<u8>, Seq<u8>)>,
                TrailerFault,
            >(Seq::empty()));
        }
        match r {
            Ok(()) => {},
            Err(_) => {
                proof {
                    assert(false);
                }
            },
        }
        let ev = d.next_frame();
        match ev {
            Ok(BodyEvent::Trailers(_)) => {},
            _ => {
                proof {
                    assert(machine_of(d.spec_decoded()).frames.len() == 0);
                    assert(false);
                }
            },
        }
        d.finish();
        d
    }
}

} // verus!
