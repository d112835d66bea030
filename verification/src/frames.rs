//! The mathematical model of gRPC-Web framing.
//!
//! A response body is a sequence of frames, each a 1-byte flag, a 4-byte
//! big-endian length and a payload.  A clear high bit in the flag marks a
//! data frame; a set high bit marks the single trailer frame that ends the
//! stream.  The reassembler is modelled as a small state machine driven over
//! the decoded byte stream; the executable decoder refines this model, and
//! the framing laws — round-trip, chunk invariance, trailer uniqueness — are
//! proved of it here.

use vstd::prelude::*;

use crate::byteops::be32;

verus! {

/// Position of the frame reassembler inside the decoded byte stream.
///
/// The state advances monotonically except for the cycle through
/// `CompressionFlag`, `DataLength` and `Data` that reads each data frame.
#[derive(Debug, Clone, Copy, PartialEq, Eq, Structural)]
pub enum ReadState {
    /// Awaiting the 1-byte flag that opens the next frame.
    CompressionFlag,
    /// Awaiting the 4-byte big-endian length of a data frame.
    DataLength,
    /// Awaiting the payload of a data frame of the given length.
    Data(u32),
    /// Awaiting the 4-byte big-endian length of the trailer frame.
    TrailerLength,
    /// Awaiting the payload of the trailer frame of the given length.
    Trailer(u32),
    /// The trailer frame has been read; nothing further is consumed.
    Done,
}

impl ReadState {
    /// True once the data sub-stream has ended: the trailer flag has been
    /// seen and no further data frame will be emitted.
    pub open spec fn spec_finished_data(self) -> bool {
        self is TrailerLength || self is Trailer || self is Done
    }

    /// True once the data sub-stream has ended: the trailer flag has been
    /// seen and no further data frame will be emitted.
    pub fn finished_data(&self) -> (r: bool)
        ensures
            r == self.spec_finished_data(),
    {
        match self {
            ReadState::TrailerLength => true,
            ReadState::Trailer(_) => true,
            ReadState::Done => true,
            _ => false,
        }
    }
}

/// The high bit of a frame's flag byte is clear for a data frame and set
/// for the trailer frame.
pub open spec fn is_data_flag(b: u8) -> bool {
    b & 0x80 == 0
}

/// A configuration of the frame reassembler.
///
/// `frames` are the data frames recovered so far, each carried verbatim with
/// its 5-byte header; `trailer` is the payload of the trailer frame once it
/// has been read; `pending` holds the header and payload bytes of the data
/// frame currently being assembled; `buf` holds decoded bytes not yet
/// consumed.
#[verifier::ext_equal]
pub ghost struct Machine {
    pub frames: Seq<Seq<u8>>,
    pub trailer: Option<Seq<u8>>,
    pub state: ReadState,
    pub pending: Seq<u8>,
    pub buf: Seq<u8>,
}

/// True when `buf` holds enough bytes for the machine to advance one step.
pub open spec fn can_step(c: Machine) -> bool {
    match c.state {
        ReadState::CompressionFlag => c.buf.len() >= 1,
        ReadState::DataLength => c.buf.len() >= 4,
        ReadState::Data(n) => c.buf.len() >= n,
        ReadState::TrailerLength => c.buf.len() >= 4,
        ReadState::Trailer(m) => c.buf.len() >= m,
        ReadState::Done => false,
    }
}

/// One transition of the reassembler, consuming bytes from the front of
/// `buf` as the current state demands.
pub open spec fn step(c: Machine) -> Machine
    recommends
        can_step(c),
{
    match c.state {
        ReadState::CompressionFlag => if is_data_flag(c.buf[0]) {
            Machine {
                frames: c.frames,
                trailer: c.trailer,
                state: ReadState::DataLength,
                pending: c.pending.push(c.buf[0]),
                buf: c.buf.skip(1),
            }
        } else {
            Machine {
                frames: c.frames,
                trailer: c.trailer,
                state: ReadState::TrailerLength,
                pending: c.pending,
                buf: c.buf.skip(1),
            }
        },
        ReadState::DataLength => Machine {
            frames: c.frames,
            trailer: c.trailer,
            state: ReadState::Data(be32(c.buf.take(4)) as u32),
            pending: c.pending + c.buf.take(4),
            buf: c.buf.skip(4),
        },
        ReadState::Data(n) => Machine {
            frames: c.frames.push(c.pending + c.buf.take(n as int)),
            trailer: c.trailer,
            state: ReadState::CompressionFlag,
            pending: Seq::empty(),
            buf: c.buf.skip(n as int),
        },
        ReadState::TrailerLength => Machine {
            frames: c.frames,
            trailer: c.trailer,
            state: ReadState::Trailer(be32(c.buf.take(4)) as u32),
            pending: c.pending,
            buf: c.buf.skip(4),
        },
        ReadState::Trailer(m) => Machine {
            frames: c.frames,
            trailer: Some(c.buf.take(m as int)),
            state: ReadState::Done,
            pending: c.pending,
            buf: c.buf.skip(m as int),
        },
        ReadState::Done => c,
    }
}

/// Ranks the states that can advance without consuming a byte below the
/// states they move to, for termination of [`run`].
pub open spec fn rank(s: ReadState) -> int {
    match s {
        ReadState::Data(_) => 1,
        ReadState::Trailer(_) => 1,
        _ => 0,
    }
}

/// Drives the reassembler until it has too few bytes to advance.
pub open spec fn run(c: Machine) -> Machine
    decreases c.buf.len(), rank(c.state),
{
    if can_step(c) {
        run(step(c))
    } else {
        c
    }
}

/// `c` with further decoded bytes appended to its buffer.
pub open spec fn with_more(c: Machine, bytes: Seq<u8>) -> Machine {
    Machine {
        frames: c.frames,
        trailer: c.trailer,
        state: c.state,
        pending: c.pending,
        buf: c.buf + bytes,
    }
}

/// Appends a chunk of decoded bytes and drives the reassembler as far as it
/// will go.
pub open spec fn feed(c: Machine, bytes: Seq<u8>) -> Machine {
    run(with_more(c, bytes))
}

/// The initial configuration: nothing read, awaiting the first flag byte.
pub open spec fn start() -> Machine {
    Machine {
        frames: Seq::empty(),
        trailer: None,
        state: ReadState::CompressionFlag,
        pending: Seq::empty(),
        buf: Seq::empty(),
    }
}

/// The configuration reached after consuming a whole decoded byte stream.
pub open spec fn machine_of(input: Seq<u8>) -> Machine {
    feed(start(), input)
}

/// Feeding one chunk after another.
pub open spec fn feed_all(c: Machine, chunks: Seq<Seq<u8>>) -> Machine
    decreases chunks.len(),
{
    if chunks.len() == 0 {
        c
    } else {
        feed_all(feed(c, chunks[0]), chunks.skip(1))
    }
}

/// The concatenation of a sequence of byte chunks.
pub open spec fn concat_all(chunks: Seq<Seq<u8>>) -> Seq<u8>
    decreases chunks.len(),
{
    if chunks.len() == 0 {
        Seq::empty()
    } else {
        chunks[0] + concat_all(chunks.skip(1))
    }
}

/// A byte string that is one well-formed frame: a flag byte whose high bit
/// matches the frame kind, a length field that matches the payload, and the
/// payload itself.
pub open spec fn frame_wf(f: Seq<u8>, data: bool) -> bool {
    &&& f.len() >= 5
    &&& is_data_flag(f[0]) == data
    &&& be32(f.subrange(1, 5)) == f.len() - 5
}

/// A step taken on a buffer with extra bytes behind it is the same step,
/// with the extra bytes still behind the buffer.
proof fn lemma_step_extend(c: Machine, extra: Seq<u8>)
    requires
        can_step(c),
    ensures
        can_step(with_more(c, extra)),
        step(with_more(c, extra)) == with_more(step(c), extra),
{
    let cx = with_more(c, extra);
    match c.state {
        ReadState::CompressionFlag => {
            assert(cx.buf[0] == c.buf[0]);
            assert(cx.buf.skip(1) =~= c.buf.skip(1) + extra);
        },
        ReadState::DataLength => {
            assert(cx.buf.take(4) =~= c.buf.take(4));
            assert(cx.buf.skip(4) =~= c.buf.skip(4) + extra);
        },
        ReadState::Data(n) => {
            assert(cx.buf.take(n as int) =~= c.buf.take(n as int));
            assert(cx.buf.skip(n as int) =~= c.buf.skip(n as int) + extra);
            assert(step(cx).frames =~= step(c).frames);
        },
        ReadState::TrailerLength => {
            assert(cx.buf.take(4) =~= c.buf.take(4));
            assert(cx.buf.skip(4) =~= c.buf.skip(4) + extra);
        },
        ReadState::Trailer(m) => {
            assert(cx.buf.take(m as int) =~= c.buf.take(m as int));
            assert(cx.buf.skip(m as int) =~= c.buf.skip(m as int) + extra);
        },
        ReadState::Done => {},
    }
}

/// Appending bytes and running commutes with running first: the extra bytes
/// can be handed over before or after the machine drains its buffer.
pub proof fn lemma_run_extend(c: Machine, extra: Seq<u8>)
    ensures
        run(with_more(c, extra)) == run(with_more(run(c), extra)),
    decreases c.buf.len(), rank(c.state),
{
    if can_step(c) {
        lemma_step_extend(c, extra);
        lemma_run_extend(step(c), extra);
    }
}

/// Feeding two chunks one after the other is feeding their concatenation.
pub proof fn lemma_feed_append(c: Machine, a: Seq<u8>, b: Seq<u8>)
    ensures
        feed(feed(c, a), b) == feed(c, a + b),
{
    lemma_run_extend(with_more(c, a), b);
    assert(with_more(with_more(c, a), b).buf =~= with_more(c, a + b).buf);
    assert(with_more(with_more(c, a), b) =~= with_more(c, a + b));
}

/// A configuration that has been run cannot advance further.
proof fn lemma_run_settled(c: Machine)
    ensures
        !can_step(run(c)),
    decreases c.buf.len(), rank(c.state),
{
    if can_step(c) {
        lemma_run_settled(step(c));
    }
}

/// Feeding chunks one at a time reaches the same configuration as feeding
/// their concatenation at once, from any settled configuration.
pub proof fn lemma_feed_all_concat(c: Machine, chunks: Seq<Seq<u8>>)
    requires
        !can_step(c),
    ensures
        feed_all(c, chunks) == feed(c, concat_all(chunks)),
    decreases chunks.len(),
{
    if chunks.len() == 0 {
        assert(with_more(c, concat_all(chunks)).buf =~= c.buf);
        assert(with_more(c, concat_all(chunks)) =~= c);
    } else {
        lemma_run_settled(with_more(c, chunks[0]));
        lemma_feed_all_concat(feed(c, chunks[0]), chunks.skip(1));
        lemma_feed_append(c, chunks[0], concat_all(chunks.skip(1)));
    }
}

/// Chunk invariance: the configuration reached — emitted frames, trailer
/// and all — depends only on the concatenation of the chunks the stream
/// delivered, never on where the chunk boundaries fell.
pub proof fn lemma_chunk_invariance(chunks1: Seq<Seq<u8>>, chunks2: Seq<Seq<u8>>)
    requires
        concat_all(chunks1) == concat_all(chunks2),
    ensures
        feed_all(start(), chunks1) == feed_all(start(), chunks2),
{
    lemma_feed_all_concat(start(), chunks1);
    lemma_feed_all_concat(start(), chunks2);
}

/// Running from a configuration that reads one well-formed data frame at
/// the head of its buffer first consumes exactly that frame and emits it.
proof fn lemma_run_data_frame(c: Machine, f: Seq<u8>, rest: Seq<u8>)
    requires
        c.state == ReadState::CompressionFlag,
        c.pending == Seq::<u8>::empty(),
        c.buf == f + rest,
        frame_wf(f, true),
    ensures
        run(c) == run(
            Machine {
                frames: c.frames.push(f),
                trailer: c.trailer,
                state: ReadState::CompressionFlag,
                pending: Seq::<u8>::empty(),
                buf: rest,
            },
        ),
{
    assert(c.buf[0] == f[0]);
    assert(can_step(c));
    let c1 = step(c);
    assert(run(c) == run(c1));
    assert(c1.pending =~= f.take(1));
    assert(c1.buf =~= f.skip(1) + rest);
    assert(c1.buf.len() >= 4);
    assert(can_step(c1));
    let c2 = step(c1);
    assert(run(c1) == run(c2));
    assert(c1.buf.take(4) =~= f.subrange(1, 5));
    assert(c2.state == ReadState::Data((f.len() - 5) as u32));
    assert(c2.pending =~= f.take(1) + f.subrange(1, 5));
    assert(c2.pending =~= f.take(5));
    assert(c2.buf =~= f.skip(5) + rest);
    let n = (f.len() - 5) as int;
    assert(c2.buf.len() >= n);
    assert(can_step(c2));
    let c3 = step(c2);
    assert(run(c2) == run(c3));
    assert(c2.buf.take(n) =~= f.skip(5));
    assert(c2.pending + c2.buf.take(n) =~= f);
    assert(c3.frames =~= c.frames.push(f));
    assert(c3.buf =~= rest);
    assert(c3 =~= (Machine {
        frames: c.frames.push(f),
        trailer: c.trailer,
        state: ReadState::CompressionFlag,
        pending: Seq::<u8>::empty(),
        buf: rest,
    }));
}

/// Running from a configuration that reads the well-formed trailer frame at
/// the head of its buffer records its payload and stops in `Done`, leaving
/// any bytes after the trailer frame unconsumed.
proof fn lemma_run_trailer_frame(c: Machine, tf: Seq<u8>, rest: Seq<u8>)
    requires
        c.state == ReadState::CompressionFlag,
        c.buf == tf + rest,
        frame_wf(tf, false),
    ensures
        run(c) == (Machine {
            frames: c.frames,
            trailer: Some(tf.subrange(5, tf.len() as int)),
            state: ReadState::Done,
            pending: c.pending,
            buf: rest,
        }),
{
    assert(c.buf[0] == tf[0]);
    assert(can_step(c));
    let c1 = step(c);
    assert(run(c) == run(c1));
    assert(c1.state == ReadState::TrailerLength);
    assert(c1.buf =~= tf.skip(1) + rest);
    assert(c1.buf.len() >= 4);
    assert(can_step(c1));
    let c2 = step(c1);
    assert(run(c1) == run(c2));
    assert(c1.buf.take(4) =~= tf.subrange(1, 5));
    assert(c2.state == ReadState::Trailer((tf.len() - 5) as u32));
    assert(c2.buf =~= tf.skip(5) + rest);
    let m = (tf.len() - 5) as int;
    assert(c2.buf.len() >= m);
    assert(can_step(c2));
    let c3 = step(c2);
    assert(run(c2) == run(c3));
    assert(c2.buf.take(m) =~= tf.subrange(5, tf.len() as int));
    assert(c3.buf =~= rest);
    assert(!can_step(c3));
    assert(run(c3) == c3);
    assert(c3 =~= (Machine {
        frames: c.frames,
        trailer: Some(tf.subrange(5, tf.len() as int)),
        state: ReadState::Done,
        pending: c.pending,
        buf: rest,
    }));
}

/// Running over a buffer laid out as well-formed data frames, then the
/// trailer frame, then anything at all, recovers exactly those frames and
/// that trailer and ignores what follows.
proof fn lemma_run_frames(c: Machine, fs: Seq<Seq<u8>>, tf: Seq<u8>, rest: Seq<u8>)
    requires
        c.state == ReadState::CompressionFlag,
        c.pending == Seq::<u8>::empty(),
        c.buf == concat_all(fs) + tf + rest,
        forall|i: int| 0 <= i < fs.len() ==> frame_wf(#[trigger] fs[i], true),
        frame_wf(tf, false),
    ensures
        run(c) == (Machine {
            frames: c.frames + fs,
            trailer: Some(tf.subrange(5, tf.len() as int)),
            state: ReadState::Done,
            pending: Seq::<u8>::empty(),
            buf: rest,
        }),
    decreases fs.len(),
{
    if fs.len() == 0 {
        assert(c.buf =~= tf + rest);
        lemma_run_trailer_frame(c, tf, rest);
        assert(c.frames + fs =~= c.frames);
    } else {
        let f = fs[0];
        let tail = concat_all(fs.skip(1)) + tf + rest;
        assert(c.buf =~= f + tail);
        lemma_run_data_frame(c, f, tail);
        let c1 = Machine {
            frames: c.frames.push(f),
            trailer: c.trailer,
            state: ReadState::CompressionFlag,
            pending: Seq::<u8>::empty(),
            buf: tail,
        };
        lemma_run_frames(c1, fs.skip(1), tf, rest);
        assert(c.frames.push(f) + fs.skip(1) =~= c.frames + fs);
    }
}

/// Framing round-trip: a stream laid out as `k` well-formed data frames
/// followed by one well-formed trailer frame decodes to exactly those `k`
/// frames, byte for byte with their headers, and that trailer payload, with
/// nothing left over.
pub proof fn lemma_framing_round_trip(fs: Seq<Seq<u8>>, tf: Seq<u8>)
    requires
        forall|i: int| 0 <= i < fs.len() ==> frame_wf(#[trigger] fs[i], true),
        frame_wf(tf, false),
    ensures
        machine_of(concat_all(fs) + tf) == (Machine {
            frames: fs,
            trailer: Some(tf.subrange(5, tf.len() as int)),
            state: ReadState::Done,
            pending: Seq::<u8>::empty(),
            buf: Seq::<u8>::empty(),
        }),
{
    let c = with_more(start(), concat_all(fs) + tf);
    assert(c.buf =~= concat_all(fs) + tf + Seq::<u8>::empty());
    lemma_run_frames(c, fs, tf, Seq::empty());
    assert(Seq::<Seq<u8>>::empty() + fs =~= fs);
}

/// Trailer uniqueness: once the machine is `Done` it consumes nothing more,
/// so bytes arriving after the trailer frame change neither the emitted
/// frames nor the trailer.
pub proof fn lemma_done_ignores_rest(input: Seq<u8>, extra: Seq<u8>)
    requires
        machine_of(input).state == ReadState::Done,
    ensures
        machine_of(input + extra).frames == machine_of(input).frames,
        machine_of(input + extra).trailer == machine_of(input).trailer,
        machine_of(input + extra).state == ReadState::Done,
{
    lemma_feed_append(start(), input, extra);
    let c = machine_of(input);
    assert(!can_step(with_more(c, extra)));
}

/// The frames already recovered are never revised: running extends the
/// frame sequence and preserves a trailer already read.
pub proof fn lemma_run_monotone(c: Machine)
    ensures
        c.frames.is_prefix_of(run(c).frames),
    decreases c.buf.len(), rank(c.state),
{
    if can_step(c) {
        lemma_run_monotone(step(c));
        assert(c.frames.is_prefix_of(step(c).frames));
    } else {
        assert(c.frames.is_prefix_of(c.frames));
    }
}

} // verus!
