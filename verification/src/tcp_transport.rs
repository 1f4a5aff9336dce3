//! Framing for the TCP transport.
//!
//! TCP is a byte stream, so every frame is preceded by its length, in two
//! big-endian bytes. Sockets belong to the application: it reads and reports
//! what it read, and this module assembles the frames.

use vstd::prelude::*;
use vstd::slice::slice_subrange;

use crate::bytes::{read_be, u16_to_be_bytes};

verus! {

/// The size of the length prefix.
pub const LENGTH_PREFIX_SIZE: usize = 2;
/// The longest frame whose length the prefix can spell.
pub const MAX_FRAME_SIZE: usize = 65_535;

/// Whether `wire` is a frame behind its length prefix. The prefix holds the
/// length modulo its range.
pub open spec fn is_frame_wire(wire: Seq<u8>, frame: Seq<u8>) -> bool {
    &&& wire.len() == frame.len() + 2
    &&& crate::bytes::be_value(wire.take(2)) == frame.len() % 0x1_0000
    &&& wire.skip(2) == frame
}

/// The length that the prefix of a stream spells.
pub open spec fn prefixed_length(stream: Seq<u8>) -> nat {
    crate::bytes::be_value(stream.take(2))
}

/// Whether a stream begins with a complete frame.
pub open spec fn has_frame(stream: Seq<u8>) -> bool {
    stream.len() >= 2 && stream.len() >= 2 + prefixed_length(stream)
}

/// The frame that a stream begins with.
pub open spec fn first_frame(stream: Seq<u8>) -> Seq<u8> {
    stream.subrange(2, 2 + prefixed_length(stream) as int)
}

/// What follows the frame that a stream begins with.
pub open spec fn after_frame(stream: Seq<u8>) -> Seq<u8> {
    stream.skip(2 + prefixed_length(stream) as int)
}

/// The frames that a stream holds completely.
pub open spec fn frames(stream: Seq<u8>) -> Seq<Seq<u8>>
    decreases stream.len(),
{
    if has_frame(stream) {
        seq![first_frame(stream)] + frames(after_frame(stream))
    } else {
        Seq::empty()
    }
}

/// What remains of a stream behind its last complete frame.
pub open spec fn remainder(stream: Seq<u8>) -> Seq<u8>
    decreases stream.len(),
{
    if has_frame(stream) {
        remainder(after_frame(stream))
    } else {
        stream
    }
}

/// Whether a stream is these frames, each behind its length prefix.
pub open spec fn is_stream_of(stream: Seq<u8>, list: Seq<Seq<u8>>) -> bool
    decreases list.len(),
{
    if list.len() == 0 {
        stream.len() == 0
    } else {
        &&& stream.len() >= list[0].len() + 2
        &&& is_frame_wire(stream.take(list[0].len() as int + 2), list[0])
        &&& is_stream_of(stream.skip(list[0].len() as int + 2), list.drop_first())
    }
}

/// The bytes to write for a frame: its length, then the frame.
pub fn encode_frame(frame: &[u8]) -> (wire: Vec<u8>)
    ensures
        is_frame_wire(wire@, frame@),
{
    let len: u16 = (frame.len() % 0x1_0000) as u16;
    let prefix = u16_to_be_bytes(len);
    let mut wire: Vec<u8> = Vec::new();
    wire.push(prefix[0]);
    wire.push(prefix[1]);
    wire.extend_from_slice(frame);
    assert(wire@.take(2) =~= prefix@);
    assert(wire@.skip(2) =~= frame@);
    wire
}

/// What one read of a connection's socket gave.
#[derive(Clone, Debug)]
pub enum ReadEvent {
    /// Bytes were read; none once the peer has closed the connection.
    Data(Vec<u8>),
    /// There is no more data right now.
    WouldBlock,
    /// The read was interrupted before it gave anything.
    Interrupted,
    TimedOut,
    /// Any other error.
    Failed,
}

/// What to do with a connection after a read.
#[derive(Clone, Debug)]
pub enum ReadStep {
    /// Read again.
    ReadAgain,
    /// Reading is over for now; a frame may be complete.
    Done(Option<Vec<u8>>),
    /// The connection is broken: drop it.
    Broken,
}

/// Per-connection read state: accumulates bytes until a full frame is available.
pub struct ConnState {
    read_buf: Vec<u8>,
}

impl View for ConnState {
    type V = Seq<u8>;

    /// Bytes read from the stream but not yet assembled into a full frame.
    closed spec fn view(&self) -> Seq<u8> {
        self.read_buf@
    }
}

impl ConnState {
    pub fn new() -> (state: ConnState)
        ensures
            state@ == Seq::<u8>::empty(),
    {
        ConnState { read_buf: Vec::new() }
    }

    /// Advances by one read. Data is kept and an interruption ignored, and in
    /// both cases there may be more to read; as soon as reading would block,
    /// the next complete frame is taken out; the end of the stream and any
    /// other error break the connection.
    pub fn on_read(&mut self, event: ReadEvent) -> (step: ReadStep)
        ensures
            match event {
                ReadEvent::Data(bytes) => if bytes@.len() == 0 {
                    step is Broken && final(self)@ == old(self)@
                } else {
                    step is ReadAgain && final(self)@ == old(self)@ + bytes@
                },
                ReadEvent::Interrupted | ReadEvent::TimedOut => step is ReadAgain && final(self)@
                    == old(self)@,
                ReadEvent::WouldBlock => if has_frame(old(self)@) {
                    step matches ReadStep::Done(Some(frame)) && frame@ == first_frame(old(self)@)
                        && final(self)@ == after_frame(old(self)@)
                } else {
                    step matches ReadStep::Done(None) && final(self)@ == old(self)@
                },
                ReadEvent::Failed => step is Broken && final(self)@ == old(self)@,
            },
    {
        match event {
            ReadEvent::Data(bytes) => {
                if bytes.len() == 0 {
                    return ReadStep::Broken;
                }
                self.read_buf.extend_from_slice(bytes.as_slice());
                ReadStep::ReadAgain
            },
            ReadEvent::Interrupted => ReadStep::ReadAgain,
            ReadEvent::TimedOut => ReadStep::ReadAgain,
            ReadEvent::WouldBlock => ReadStep::Done(self.take_frame()),
            ReadEvent::Failed => ReadStep::Broken,
        }
    }

    /// Takes the next frame out, if it is complete.
    pub fn take_frame(&mut self) -> (frame: Option<Vec<u8>>)
        ensures
            match frame {
                Some(f) => has_frame(old(self)@) && f@ == first_frame(old(self)@) && final(self)@
                    == after_frame(old(self)@),
                None => !has_frame(old(self)@) && final(self)@ == old(self)@,
            },
    {
        if self.read_buf.len() < LENGTH_PREFIX_SIZE {
            return None;
        }
        let length: u64 = read_be(self.read_buf.as_slice(), 0, LENGTH_PREFIX_SIZE);
        assert(self@.subrange(0, 2) =~= self@.take(2));
        proof {
            lemma_prefix_bound(self@);
        }
        let frame_len: usize = length as usize;
        if self.read_buf.len() < LENGTH_PREFIX_SIZE + frame_len {
            return None;
        }
        let end: usize = LENGTH_PREFIX_SIZE + frame_len;
        let ghost whole = self@;
        let frame = vstd::slice::slice_to_vec(
            slice_subrange(self.read_buf.as_slice(), LENGTH_PREFIX_SIZE, end),
        );
        let rest = vstd::slice::slice_to_vec(
            slice_subrange(self.read_buf.as_slice(), end, self.read_buf.len()),
        );
        assert(rest@ =~= after_frame(whole));
        self.read_buf = rest;
        Some(frame)
    }
}

proof fn lemma_prefix_bound(stream: Seq<u8>)
    requires
        stream.len() >= 2,
    ensures
        prefixed_length(stream) == stream[0] * 256 + stream[1],
{
    reveal_with_fuel(crate::bytes::be_value, 3);
    let prefix = stream.take(2);
    assert(prefix.drop_last().drop_last() =~= Seq::<u8>::empty());
}

/// Copies a frame into a receive buffer and gives the number of bytes copied.
/// What does not fit is cut off.
pub fn copy_frame(frame: &[u8], buffer: &mut [u8]) -> (copied: usize)
    ensures
        final(buffer)@.len() == old(buffer)@.len(),
        copied == if frame@.len() < old(buffer)@.len() {
            frame@.len()
        } else {
            old(buffer)@.len()
        },
        final(buffer)@.take(copied as int) == frame@.take(copied as int),
        final(buffer)@.skip(copied as int) == old(buffer)@.skip(copied as int),
{
    let ghost before = buffer@;
    let len: usize = if frame.len() < buffer.len() {
        frame.len()
    } else {
        buffer.len()
    };
    let mut i: usize = 0;
    while i < len
        invariant
            i <= len,
            len <= frame@.len(),
            len <= buffer@.len(),
            buffer@.len() == before.len(),
            forall|j: int| 0 <= j < i ==> buffer@[j] == frame@[j],
            forall|j: int| len <= j < before.len() ==> buffer@[j] == before[j],
        decreases len - i,
    {
        buffer[i] = frame[i];
        i = i + 1;
    }
    assert(buffer@.take(len as int) =~= frame@.take(len as int));
    assert(buffer@.skip(len as int) =~= before.skip(len as int));
    len
}

// ---------------------------------------------------------------------------
// Laws.
// ---------------------------------------------------------------------------

/// What was written frame by frame is read back frame by frame, in the same
/// order and with nothing left over, as long as the prefix can spell every
/// length.
pub proof fn written_frames_are_read_back(stream: Seq<u8>, list: Seq<Seq<u8>>)
    requires
        is_stream_of(stream, list),
        forall|i: int| 0 <= i < list.len() ==> (#[trigger] list[i]).len() <= MAX_FRAME_SIZE,
    ensures
        frames(stream) == list,
        remainder(stream) == Seq::<u8>::empty(),
    decreases list.len(),
{
    if list.len() == 0 {
        assert(frames(stream) =~= list);
        assert(remainder(stream) =~= Seq::<u8>::empty());
    } else {
        let size = list[0].len() as int + 2;
        let wire = stream.take(size);
        assert(wire.take(2) =~= stream.take(2));
        assert(prefixed_length(stream) == list[0].len());
        assert(has_frame(stream));
        assert(first_frame(stream) =~= wire.skip(2));
        let tail = list.drop_first();
        assert forall|i: int| 0 <= i < tail.len() implies (#[trigger] tail[i]).len()
            <= MAX_FRAME_SIZE by {
            assert(tail[i] == list[i + 1]);
        }
        written_frames_are_read_back(after_frame(stream), tail);
        assert(frames(stream) =~= list);
    }
}

/// It does not matter how a stream is cut into reads: frames that complete with
/// the first part come first, and what remains is completed by the second.
pub proof fn partial_reads_assemble(first: Seq<u8>, second: Seq<u8>)
    ensures
        frames(first + second) == frames(first) + frames(remainder(first) + second),
        remainder(first + second) == remainder(remainder(first) + second),
    decreases first.len(),
{
    if has_frame(first) {
        let whole = first + second;
        assert(whole.take(2) =~= first.take(2));
        assert(first_frame(whole) =~= first_frame(first));
        assert(after_frame(whole) =~= after_frame(first) + second);
        partial_reads_assemble(after_frame(first), second);
        assert(frames(whole) =~= frames(first) + frames(remainder(first) + second));
    } else {
        assert(frames(first) + frames(first + second) =~= frames(first + second));
    }
}

/// A frame goes over the stream behind two bytes, the first of which counts 256
/// and the second one: together they are its length.
pub proof fn length_prefix_is_big_endian(wire: Seq<u8>, frame: Seq<u8>)
    requires
        is_frame_wire(wire, frame),
        frame.len() <= 65_535,
    ensures
        wire.len() == frame.len() + 2,
        256 * wire[0] + wire[1] == frame.len(),
        wire.skip(2) == frame,
{
    lemma_prefix_bound(wire);
}

/// A frame is complete exactly when as many bytes have come after the two of its
/// prefix as these say, and then it is those bytes; what follows stays.
pub proof fn frames_complete_with_their_last_byte(stream: Seq<u8>)
    ensures
        has_frame(stream) <==> stream.len() >= 2 && stream.len() - 2 >= 256 * stream[0] + stream[1],
        has_frame(stream) ==> first_frame(stream).len() == 256 * stream[0] + stream[1]
            && stream.take(2) + first_frame(stream) + after_frame(stream) == stream,
{
    if stream.len() >= 2 {
        lemma_prefix_bound(stream);
        if has_frame(stream) {
            assert(stream.take(2) + first_frame(stream) + after_frame(stream) =~= stream);
        }
    }
}

} // verus!
