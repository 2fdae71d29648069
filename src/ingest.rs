//! Turns a byte stream, arriving in chunks of any size, into the most recent
//! complete snapshot.

use vstd::prelude::*;
use crate::snapshot::{CPUUsage, Packet};
use crate::wire::{
    decode_packet, decode_spec, lemma_truncated_frame_incomplete, varint_len_from, DecodeError,
};

verus! {

/// Capacity of the receive buffer in bytes.
pub const RX_CAPACITY: usize = 1024;

/// What is left of the receive buffer, the current snapshot, and whether a
/// new snapshot was decoded, once every complete frame at the start of `buf`
/// has been taken: a decoded frame replaces `cur` and leaves the buffer; an
/// incomplete one stays buffered; a malformed one empties the buffer.
pub open spec fn drain_spec(buf: Seq<u8>, cur: Seq<CPUUsage>, fresh: bool) -> (
    Seq<u8>,
    Seq<CPUUsage>,
    bool,
)
    decreases buf.len(),
{
    match decode_spec(buf) {
        Ok((cores, n)) => if 0 < n <= buf.len() {
            drain_spec(buf.skip(n as int), cores, true)
        } else {
            (buf, cur, fresh)
        },
        Err(DecodeError::Incomplete) => (buf, cur, fresh),
        Err(_) => (Seq::empty(), cur, fresh),
    }
}

/// The state after one chunk: the chunk joins the buffer and the buffer is
/// drained; a chunk that does not fit beside what is buffered is dropped
/// together with it.
pub open spec fn feed_spec(buf: Seq<u8>, cur: Seq<CPUUsage>, chunk: Seq<u8>) -> (
    Seq<u8>,
    Seq<CPUUsage>,
    bool,
) {
    if buf.len() + chunk.len() > RX_CAPACITY {
        (Seq::empty(), cur, false)
    } else {
        drain_spec(buf + chunk, cur, false)
    }
}

/// A frame that declares more readings than a snapshot holds is rejected:
/// the buffer is emptied and the current snapshot stays as it was.
pub proof fn lemma_oversized_frame_rejected(buf: Seq<u8>, cur: Seq<CPUUsage>, chunk: Seq<u8>)
    requires
        decode_spec(buf + chunk) == Err::<(Seq<CPUUsage>, nat), DecodeError>(
            DecodeError::CapacityExceeded,
        ),
    ensures
        feed_spec(buf, cur, chunk) == (Seq::<u8>::empty(), cur, false),
{
}

/// A frame that arrives in two pieces gives no snapshot after the first
/// piece, which stays buffered, and gives its snapshot after the second.
pub proof fn lemma_frame_in_two_chunks(
    cur: Seq<CPUUsage>,
    frame: Seq<u8>,
    cores: Seq<CPUUsage>,
    k: nat,
)
    requires
        decode_spec(frame) == Ok::<(Seq<CPUUsage>, nat), DecodeError>((cores, frame.len())),
        frame.len() <= RX_CAPACITY,
        k < frame.len(),
    ensures
        feed_spec(Seq::empty(), cur, frame.take(k as int)) == (frame.take(k as int), cur, false),
        feed_spec(frame.take(k as int), cur, frame.skip(k as int)) == (
            Seq::<u8>::empty(),
            cores,
            true,
        ),
{
    lemma_truncated_frame_incomplete(frame, k);
    assert(Seq::<u8>::empty() + frame.take(k as int) =~= frame.take(k as int));
    assert(frame.take(k as int) + frame.skip(k as int) =~= frame);
    let rest = frame.skip(frame.len() as int);
    assert(rest =~= Seq::<u8>::empty());
    assert(varint_len_from(rest, 0) == -1);
    assert(decode_spec(rest) == Err::<(Seq<CPUUsage>, nat), DecodeError>(DecodeError::Incomplete));
    assert(drain_spec(rest, cores, true) == (rest, cores, true));
    assert(drain_spec(frame, cur, false) == drain_spec(rest, cores, true));
}

/// Receives the byte stream and keeps the newest complete snapshot.
pub struct Ingestor {
    buf: Vec<u8>,
    current: Packet,
}

impl Ingestor {
    /// Bytes received and not yet part of a decoded frame.
    pub closed spec fn pending(&self) -> Seq<u8> {
        self.buf@
    }

    /// The newest decoded snapshot.
    pub closed spec fn current_spec(&self) -> Seq<CPUUsage> {
        self.current@
    }

    pub closed spec fn wf(&self) -> bool {
        self.buf@.len() <= RX_CAPACITY && self.current.wf()
    }

    /// An ingestor with nothing buffered and the empty snapshot as current.
    pub fn new() -> (r: Ingestor)
        ensures
            r.wf(),
            r.pending() == Seq::<u8>::empty(),
            r.current_spec() == Seq::<CPUUsage>::empty(),
    {
        Ingestor { buf: Vec::new(), current: Packet::new() }
    }

    /// The newest decoded snapshot.
    pub fn current(&self) -> (r: &Packet)
        requires
            self.wf(),
        ensures
            r@ == self.current_spec(),
            r.wf(),
    {
        &self.current
    }

    /// Takes every complete frame at the start of the buffer.
    fn drain(&mut self) -> (fresh: bool)
        requires
            old(self).current.wf(),
        ensures
            (final(self).buf@, final(self).current@, fresh) == drain_spec(
                old(self).buf@,
                old(self).current@,
                false,
            ),
            final(self).buf@.len() <= old(self).buf@.len(),
            final(self).current.wf(),
    {
        let ghost buf0 = self.buf@;
        let ghost cur0 = self.current@;
        let mut fresh: bool = false;
        loop
            invariant
                drain_spec(self.buf@, self.current@, fresh) == drain_spec(buf0, cur0, false),
                self.buf@.len() <= buf0.len(),
                self.current.wf(),
            ensures
                (self.buf@, self.current@, fresh) == drain_spec(buf0, cur0, false),
                self.buf@.len() <= buf0.len(),
                self.current.wf(),
            decreases self.buf@.len(),
        {
            match decode_packet(self.buf.as_slice()) {
                Ok((p, n)) => {
                    let rest = self.buf.split_off(n);
                    self.buf = rest;
                    self.current = p;
                    fresh = true;
                },
                Err(DecodeError::Incomplete) => {
                    break ;
                },
                Err(_) => {
                    self.buf = Vec::new();
                    break ;
                },
            }
        }
        fresh
    }

    /// Takes in one chunk of the stream; returns whether a new snapshot was
    /// decoded from it.
    pub fn feed(&mut self, chunk: &[u8]) -> (fresh: bool)
        requires
            old(self).wf(),
        ensures
            final(self).wf(),
            (final(self).pending(), final(self).current_spec(), fresh) == feed_spec(
                old(self).pending(),
                old(self).current_spec(),
                chunk@,
            ),
    {
        if chunk.len() > RX_CAPACITY - self.buf.len() {
            self.buf = Vec::new();
            return false;
        }
        let ghost buf0 = self.buf@;
        let mut i: usize = 0;
        while i < chunk.len()
            invariant
                i <= chunk@.len(),
                buf0.len() + chunk@.len() <= RX_CAPACITY,
                self.buf@ == buf0 + chunk@.take(i as int),
                self.current@ == old(self).current@,
                self.current.wf(),
            decreases chunk@.len() - i,
        {
            self.buf.push(chunk[i]);
            i += 1;
            assert(self.buf@ =~= buf0 + chunk@.take(i as int));
        }
        assert(chunk@.take(i as int) =~= chunk@);
        self.drain()
    }
}

} // verus!
