//! Incremental decoding of the host-link byte stream.
//!
//! Bytes arrive in arbitrary runs from the serial port.  They accumulate
//! until the frame-end byte `0x00`; the staged frame is then destuffed and
//! decoded as one envelope.  A frame that fails either step is dropped and
//! decoding continues at the next frame boundary, so a decode error never
//! desynchronizes the stream.

use vstd::prelude::*;
use crate::codec::dec_envelope;
use crate::frame::{destuff, destuff_bytes, find_zero, lemma_find_zero_bounds,
    lemma_find_zero_char};
use crate::proto::{HostEnvelope, HostEnvelopeView};

verus! {

/// What one complete frame (the bytes before a frame-end byte) yields:
/// an envelope, or nothing when destuffing or decoding fails or the
/// decode does not consume the whole frame.
pub open spec fn envelope_of_chunk(c: Seq<u8>) -> Option<HostEnvelopeView> {
    match destuff(c) {
        None => None,
        Some(p) => match dec_envelope(p) {
            None => None,
            Some((e, n)) => if n == p.len() {
                Some(e)
            } else {
                None
            },
        },
    }
}

/// The envelopes a byte stream yields: one per well-formed complete frame,
/// in stream order; bytes after the last frame-end byte yield nothing yet.
pub open spec fn envelopes_of(s: Seq<u8>) -> Seq<HostEnvelopeView>
    decreases s.len(),
    via envelopes_of_decreases
{
    let j = find_zero(s, 0);
    if j >= s.len() {
        Seq::empty()
    } else {
        (match envelope_of_chunk(s.take(j)) {
            Some(e) => seq![e],
            None => Seq::empty(),
        }) + envelopes_of(s.skip(j + 1))
    }
}

#[via_fn]
proof fn envelopes_of_decreases(s: Seq<u8>) {
    lemma_find_zero_bounds(s, 0);
}

/// The bytes after the last frame-end byte: the frame still in flight.
pub open spec fn pending_of(s: Seq<u8>) -> Seq<u8>
    decreases s.len(),
    via pending_of_decreases
{
    let j = find_zero(s, 0);
    if j >= s.len() {
        s
    } else {
        pending_of(s.skip(j + 1))
    }
}

#[via_fn]
proof fn pending_of_decreases(s: Seq<u8>) {
    lemma_find_zero_bounds(s, 0);
}

/// One step of the run-of-good-frames counter: up on a good frame
/// (saturating), back to zero on a bad one.
pub open spec fn bump(x: nat) -> nat {
    if x < usize::MAX {
        x + 1
    } else {
        x
    }
}

/// The run-of-good-frames counter after a byte stream, starting from
/// `init`.
pub open spec fn streak_after(s: Seq<u8>, init: nat) -> nat
    decreases s.len(),
    via streak_after_decreases
{
    let j = find_zero(s, 0);
    if j >= s.len() {
        init
    } else {
        streak_after(
            s.skip(j + 1),
            if envelope_of_chunk(s.take(j)) is Some {
                bump(init)
            } else {
                0
            },
        )
    }
}

#[via_fn]
proof fn streak_after_decreases(s: Seq<u8>, init: nat) {
    lemma_find_zero_bounds(s, 0);
}

/// The views of a run of envelopes.
pub open spec fn views_of(v: Seq<HostEnvelope>) -> Seq<HostEnvelopeView> {
    v.map_values(|e: HostEnvelope| e@)
}

/// A stream with no frame-end byte is all pending: it yields no envelope
/// and leaves the counter alone.
pub proof fn lemma_no_zero_all_pending(s: Seq<u8>, init: nat)
    requires
        forall|k: int| 0 <= k < s.len() ==> s[k] != 0,
    ensures
        envelopes_of(s) == Seq::<HostEnvelopeView>::empty(),
        pending_of(s) == s,
        streak_after(s, init) == init,
{
    lemma_find_zero_char(s, 0, s.len() as int);
}

/// The incremental frame decoder: the bytes of the frame in flight and the
/// run of well-formed frames since the last bad one.
pub struct FrameAccumulator {
    pub buf: Vec<u8>,
    pub since_last_err: usize,
}

impl FrameAccumulator {
    /// The frame in flight never contains a frame-end byte.
    pub open spec fn wf(&self) -> bool {
        forall|k: int| 0 <= k < self.buf@.len() ==> self.buf@[k] != 0
    }

    /// An empty decoder.
    pub fn new() -> (r: FrameAccumulator)
        ensures
            r.wf(),
            r.buf@ == Seq::<u8>::empty(),
            r.since_last_err == 0,
    {
        FrameAccumulator { buf: Vec::new(), since_last_err: 0 }
    }

    /// Feeds a run of bytes; returns the envelopes of every frame that
    /// completed, in order.  The frame in flight afterwards is whatever
    /// followed the last frame-end byte, and the counter follows the
    /// stream's good and bad frames.
    pub fn push_bytes(&mut self, data: &[u8]) -> (msgs: Vec<HostEnvelope>)
        requires
            old(self).wf(),
        ensures
            final(self).wf(),
            views_of(msgs@) == envelopes_of(old(self).buf@ + data@),
            final(self).buf@ == pending_of(old(self).buf@ + data@),
            final(self).since_last_err == streak_after(
                old(self).buf@ + data@,
                old(self).since_last_err as nat,
            ),
    {
        let ghost s0 = old(self).buf@ + data@;
        let mut msgs: Vec<HostEnvelope> = Vec::new();
        let len = data.len();
        let mut i: usize = 0;
        proof {
            assert(self.buf@ + data@.skip(0) =~= s0);
        }
        while i < len
            invariant
                0 <= i <= len,
                len == data@.len(),
                self.wf(),
                views_of(msgs@) + envelopes_of(self.buf@ + data@.skip(i as int)) == envelopes_of(
                    s0,
                ),
                pending_of(self.buf@ + data@.skip(i as int)) == pending_of(s0),
                streak_after(self.buf@ + data@.skip(i as int), self.since_last_err as nat)
                    == streak_after(s0, old(self).since_last_err as nat),
            decreases len - i,
        {
            let b = data[i];
            let ghost cur = self.buf@ + data@.skip(i as int);
            if b != 0 {
                self.buf.push(b);
                proof {
                    assert(self.buf@ + data@.skip(i + 1 as int) =~= cur);
                }
            } else {
                // The frame in flight is complete: decode it.
                proof {
                    lemma_find_zero_char(cur, 0, self.buf@.len() as int);
                    assert(cur.take(self.buf@.len() as int) =~= self.buf@);
                    assert(cur.skip(self.buf@.len() as int + 1) =~= data@.skip(i + 1 as int));
                }
                let decoded = match destuff_bytes(self.buf.as_slice()) {
                    None => None,
                    Some(payload) => crate::codec::decode_envelope(payload.as_slice()),
                };
                match decoded {
                    Some(env) => {
                        proof {
                            assert(envelope_of_chunk(self.buf@) == Some(env@));
                        }
                        msgs.push(env);
                        if self.since_last_err < usize::MAX {
                            self.since_last_err = self.since_last_err + 1;
                        }
                        proof {
                            assert(views_of(msgs@) =~= views_of(msgs@.drop_last()) + seq![
                                msgs@.last()@,
                            ]);
                        }
                    },
                    None => {
                        proof {
                            assert(envelope_of_chunk(self.buf@) is None);
                        }
                        self.since_last_err = 0;
                    },
                }
                self.buf.clear();
                proof {
                    assert(self.buf@ + data@.skip(i + 1 as int) =~= data@.skip(i + 1 as int));
                    assert(views_of(msgs@) + envelopes_of(self.buf@ + data@.skip(i + 1 as int))
                        =~= envelopes_of(s0));
                }
            }
            i = i + 1;
        }
        proof {
            assert(data@.skip(len as int) =~= Seq::<u8>::empty());
            assert(self.buf@ + data@.skip(len as int) =~= self.buf@);
            lemma_no_zero_all_pending(self.buf@, self.since_last_err as nat);
            assert(views_of(msgs@) =~= views_of(msgs@) + envelopes_of(self.buf@));
        }
        msgs
    }
}

/// The severity tag the operator console prints before an envelope.
pub fn envelope_label(e: &HostEnvelope) -> (r: &'static str)
    ensures
        e matches HostEnvelope::Log(_) ==> r@ == "LOG"@,
        e matches HostEnvelope::Warn(_) ==> r@ == "WRN"@,
        e matches HostEnvelope::Error(_) ==> r@ == "ERR"@,
        e matches HostEnvelope::BinaryRaw(_) ==> r@ == "BIN"@,
        e matches HostEnvelope::ProtocolMessage(_) ==> r@ == "RX"@,
{
    match e {
        HostEnvelope::Log(_) => "LOG",
        HostEnvelope::Warn(_) => "WRN",
        HostEnvelope::Error(_) => "ERR",
        HostEnvelope::BinaryRaw(_) => "BIN",
        HostEnvelope::ProtocolMessage(_) => "RX",
    }
}

} // verus!
