//! Byte-stuffed framing of the host link.
//!
//! A frame on the wire never contains the reserved byte `0x00`; that byte
//! marks the end of a frame.  Stuffing splits the payload into groups of at
//! most 254 bytes ending at each reserved byte; each group is written as a
//! code byte (the group length plus one, or 255 for a full group with no
//! reserved byte) followed by the group's bytes.  Destuffing reverses this.
//!
//! Encoded envelopes above [`MAX_HOST_FRAME`] bytes are refused rather than
//! truncated.

use vstd::prelude::*;
use crate::codec::{enc_envelope, encode_envelope};
use crate::proto::HostEnvelope;

verus! {

/// The largest encoded envelope the host link carries, in bytes.
pub const MAX_HOST_FRAME: usize = 2048;

/// The first position at or after `i` holding a zero byte, or the length
/// when none does.
pub open spec fn find_zero(s: Seq<u8>, i: int) -> int
    decreases s.len() - i,
{
    if i < 0 || i >= s.len() {
        s.len() as int
    } else if s[i] == 0 {
        i
    } else {
        find_zero(s, i + 1)
    }
}

pub proof fn lemma_find_zero_bounds(s: Seq<u8>, i: int)
    requires
        0 <= i <= s.len(),
    ensures
        i <= find_zero(s, i) <= s.len(),
        find_zero(s, i) < s.len() ==> s[find_zero(s, i)] == 0,
        forall|m: int| i <= m < find_zero(s, i) ==> s[m] != 0,
    decreases s.len() - i,
{
    if i < s.len() && s[i] != 0 {
        lemma_find_zero_bounds(s, i + 1);
    }
}

/// A position is the first zero if everything before it is nonzero and it
/// holds a zero or is the end.
pub proof fn lemma_find_zero_char(s: Seq<u8>, i: int, j: int)
    requires
        0 <= i <= j <= s.len(),
        forall|m: int| i <= m < j ==> s[m] != 0,
        j < s.len() ==> s[j] == 0,
    ensures
        find_zero(s, i) == j,
    decreases s.len() - i,
{
    if i < s.len() && s[i] != 0 {
        lemma_find_zero_char(s, i + 1, j);
    }
}

/// The stuffed form of a payload: group by group.
pub open spec fn stuff(s: Seq<u8>) -> Seq<u8>
    decreases s.len(),
    via stuff_decreases
{
    let j = find_zero(s, 0);
    if j < s.len() && j < 254 {
        seq![(j + 1) as u8] + (s.take(j) + stuff(s.skip(j + 1)))
    } else if s.len() > 254 {
        seq![255u8] + (s.take(254) + stuff(s.skip(254)))
    } else {
        seq![(s.len() + 1) as u8] + s
    }
}

#[via_fn]
proof fn stuff_decreases(s: Seq<u8>) {
    lemma_find_zero_bounds(s, 0);
}

/// What destuffing yields: the payload, or nothing for a malformed frame.
pub open spec fn destuff(s: Seq<u8>) -> Option<Seq<u8>>
    decreases s.len(),
{
    if s.len() == 0 {
        None
    } else {
        let c = s[0] as int;
        if c == 0 || s.len() < c {
            None
        } else {
            let block = s.subrange(1, c);
            let rest = s.skip(c);
            if rest.len() == 0 {
                Some(block)
            } else {
                match destuff(rest) {
                    None => None,
                    Some(t) => Some(block + (if c < 255 {
                        seq![0u8]
                    } else {
                        Seq::empty()
                    }) + t),
                }
            }
        }
    }
}

pub proof fn lemma_stuff_len(s: Seq<u8>)
    ensures
        stuff(s).len() >= 1 + s.len(),
    decreases s.len(),
{
    lemma_find_zero_bounds(s, 0);
    let j = find_zero(s, 0);
    if j < s.len() && j < 254 {
        lemma_stuff_len(s.skip(j + 1));
    } else if s.len() > 254 {
        lemma_stuff_len(s.skip(254));
    }
}

/// The stuffed form of any payload holds no zero byte.
pub proof fn lemma_stuff_no_zero(s: Seq<u8>)
    ensures
        forall|k: int| 0 <= k < stuff(s).len() ==> stuff(s)[k] != 0,
    decreases s.len(),
{
    lemma_find_zero_bounds(s, 0);
    let j = find_zero(s, 0);
    if j < s.len() && j < 254 {
        lemma_stuff_no_zero(s.skip(j + 1));
        let out = seq![(j + 1) as u8] + (s.take(j) + stuff(s.skip(j + 1)));
        assert forall|k: int| 0 <= k < out.len() implies out[k] != 0 by {
            if k == 0 {
            } else if k <= j {
                assert(out[k] == s[k - 1]);
            } else {
                assert(out[k] == stuff(s.skip(j + 1))[k - j - 1]);
            }
        }
    } else if s.len() > 254 {
        lemma_stuff_no_zero(s.skip(254));
        let out = seq![255u8] + (s.take(254) + stuff(s.skip(254)));
        assert forall|k: int| 0 <= k < out.len() implies out[k] != 0 by {
            if k == 0 {
            } else if k <= 254 {
                assert(out[k] == s[k - 1]);
            } else {
                assert(out[k] == stuff(s.skip(254))[k - 255]);
            }
        }
    } else {
        let out = seq![(s.len() + 1) as u8] + s;
        assert forall|k: int| 0 <= k < out.len() implies out[k] != 0 by {
            if k > 0 {
                assert(out[k] == s[k - 1]);
            }
        }
    }
}

/// Round trip: destuffing the stuffed form of any payload gives the
/// payload back.
pub proof fn lemma_destuff_stuff(s: Seq<u8>)
    ensures
        destuff(stuff(s)) == Some(s),
    decreases s.len(),
{
    lemma_find_zero_bounds(s, 0);
    let j = find_zero(s, 0);
    let w = stuff(s);
    if j < s.len() && j < 254 {
        let t = stuff(s.skip(j + 1));
        lemma_stuff_len(s.skip(j + 1));
        lemma_destuff_stuff(s.skip(j + 1));
        let c = j + 1;
        assert(w[0] == c as u8);
        assert(w.subrange(1, c) =~= s.take(j));
        assert(w.skip(c) =~= t);
        assert(s.take(j) + seq![0u8] + s.skip(j + 1) =~= s);
    } else if s.len() > 254 {
        let t = stuff(s.skip(254));
        lemma_stuff_len(s.skip(254));
        lemma_destuff_stuff(s.skip(254));
        assert(w[0] == 255u8);
        assert(w.subrange(1, 255) =~= s.take(254));
        assert(w.skip(255) =~= t);
        assert(s.take(254) + Seq::<u8>::empty() + s.skip(254) =~= s);
    } else {
        let c = s.len() + 1;
        assert(w[0] == c as u8);
        assert(w.len() == c);
        assert(w.subrange(1, c as int) =~= s);
        assert(w.skip(c as int) =~= Seq::<u8>::empty());
    }
}

/// Appends the stuffed form of the payload's suffix from `i` on.
fn stuff_into(data: &[u8], i: usize, out: &mut Vec<u8>)
    requires
        i <= data@.len(),
    ensures
        final(out)@ == old(out)@ + stuff(data@.skip(i as int)),
    decreases data@.len() - i,
{
    let len = data.len();
    let ghost t = data@.skip(i as int);
    // Find the first zero within the next 254 bytes.
    let mut k: usize = i;
    while k < len && k - i < 254 && data[k] != 0
        invariant
            i <= k <= len,
            len == data@.len(),
            k - i <= 254,
            forall|m: int| i <= m < k ==> data@[m] != 0,
        decreases len - k,
    {
        k = k + 1;
    }
    proof {
        assert(forall|m: int| 0 <= m < k - i ==> t[m] == data@[i + m] && t[m] != 0);
    }
    if k < len && k - i < 254 && data[k] == 0 {
        // A zero ends this group.
        let j = k - i;
        proof {
            lemma_find_zero_char(t, 0, j as int);
        }
        out.push((j + 1) as u8);
        let mut m: usize = i;
        while m < k
            invariant
                i <= m <= k <= len,
                len == data@.len(),
                out@ == old(out)@ + seq![(j + 1) as u8] + t.take(m - i),
                t == data@.skip(i as int),
                j == k - i,
                j < 254,
            decreases k - m,
        {
            out.push(data[m]);
            m = m + 1;
            proof {
                assert(out@ =~= old(out)@ + seq![(j + 1) as u8] + t.take(m - i));
            }
        }
        stuff_into(data, k + 1, out);
        proof {
            assert(data@.skip(k + 1 as int) =~= t.skip(j + 1));
            assert(out@ =~= old(out)@ + stuff(t));
        }
    } else if len - i > 254 {
        // A full group with no zero.
        proof {
            lemma_find_zero_bounds(t, 0);
            if find_zero(t, 0) < 254 {
                assert(t[find_zero(t, 0)] == 0);
                assert(data@[i + find_zero(t, 0)] == 0);
            }
        }
        out.push(255);
        let mut m: usize = i;
        while m < i + 254
            invariant
                i <= m <= i + 254 <= len,
                len == data@.len(),
                out@ == old(out)@ + seq![255u8] + t.take(m - i),
                t == data@.skip(i as int),
            decreases i + 254 - m,
        {
            out.push(data[m]);
            m = m + 1;
            proof {
                assert(out@ =~= old(out)@ + seq![255u8] + t.take(m - i));
            }
        }
        stuff_into(data, i + 254, out);
        proof {
            assert(data@.skip(i + 254 as int) =~= t.skip(254));
            assert(out@ =~= old(out)@ + stuff(t));
        }
    } else {
        // The final group: everything that is left, no zero in it.
        proof {
            lemma_find_zero_bounds(t, 0);
            if find_zero(t, 0) < t.len() {
                assert(t[find_zero(t, 0)] == 0);
                assert(data@[i + find_zero(t, 0)] == 0);
            }
        }
        let j = len - i;
        out.push((j + 1) as u8);
        let mut m: usize = i;
        while m < len
            invariant
                i <= m <= len,
                len == data@.len(),
                out@ == old(out)@ + seq![(j + 1) as u8] + t.take(m - i),
                t == data@.skip(i as int),
                j == len - i,
                j <= 254,
            decreases len - m,
        {
            out.push(data[m]);
            m = m + 1;
            proof {
                assert(out@ =~= old(out)@ + seq![(j + 1) as u8] + t.take(m - i));
            }
        }
        proof {
            assert(t.take(t.len() as int) =~= t);
            assert(out@ =~= old(out)@ + stuff(t));
        }
    }
}

/// The stuffed form of a payload.
pub fn stuff_bytes(data: &[u8]) -> (r: Vec<u8>)
    ensures
        r@ == stuff(data@),
{
    let mut out: Vec<u8> = Vec::new();
    stuff_into(data, 0, &mut out);
    proof {
        assert(data@.skip(0) =~= data@);
    }
    out
}

/// Appends the destuffed payload of the frame's suffix from `pos` on;
/// reports whether the frame was well formed.
fn destuff_into(s: &[u8], pos: usize, out: &mut Vec<u8>) -> (ok: bool)
    requires
        pos <= s@.len(),
    ensures
        match destuff(s@.skip(pos as int)) {
            Some(t) => ok && final(out)@ == old(out)@ + t,
            None => !ok,
        },
    decreases s@.len() - pos,
{
    let len = s.len();
    let ghost t = s@.skip(pos as int);
    if pos == len {
        return false;
    }
    let c = s[pos];
    if c == 0 {
        return false;
    }
    if len - pos < c as usize {
        return false;
    }
    let stop = pos + c as usize;
    let mut m: usize = pos + 1;
    while m < stop
        invariant
            pos + 1 <= m <= stop <= len,
            len == s@.len(),
            pos < len,
            stop == pos + c as usize,
            out@ == old(out)@ + t.subrange(1, m - pos),
            t == s@.skip(pos as int),
            c == s@[pos as int],
        decreases stop - m,
    {
        out.push(s[m]);
        m = m + 1;
        proof {
            assert(out@ =~= old(out)@ + t.subrange(1, m - pos));
        }
    }
    if stop == len {
        proof {
            assert(t.skip(c as int).len() == 0);
        }
        return true;
    }
    if c < 255 {
        out.push(0);
    }
    let ghost mid = out@;
    let ok = destuff_into(s, stop, out);
    proof {
        assert(s@.skip(stop as int) =~= t.skip(c as int));
        if destuff(t.skip(c as int)) is Some {
            let tail = destuff(t.skip(c as int)).unwrap();
            if ok {
                assert(out@ =~= old(out)@ + (t.subrange(1, c as int) + (if (c as int) < 255 {
                    seq![0u8]
                } else {
                    Seq::<u8>::empty()
                }) + tail));
            }
        }
    }
    ok
}

/// The destuffed payload of a frame, or nothing for a malformed frame.
pub fn destuff_bytes(data: &[u8]) -> (r: Option<Vec<u8>>)
    ensures
        match destuff(data@) {
            Some(t) => r matches Some(v) && v@ == t,
            None => r is None,
        },
{
    let mut out: Vec<u8> = Vec::new();
    proof {
        assert(data@.skip(0) =~= data@);
    }
    if destuff_into(data, 0, &mut out) {
        Some(out)
    } else {
        None
    }
}

/// The whole on-wire form of an envelope: its encoding, stuffed, with the
/// frame-end byte; or nothing when the encoding is over [`MAX_HOST_FRAME`]
/// bytes, for the sender to drop rather than truncate.
pub fn frame_envelope(e: &HostEnvelope) -> (r: Option<Vec<u8>>)
    ensures
        enc_envelope(e@).len() > MAX_HOST_FRAME ==> r is None,
        enc_envelope(e@).len() <= MAX_HOST_FRAME ==> (r matches Some(v) && v@ == stuff(
            enc_envelope(e@),
        ) + seq![0u8]),
{
    let enc = encode_envelope(e);
    if enc.len() > MAX_HOST_FRAME {
        return None;
    }
    let mut framed = stuff_bytes(enc.as_slice());
    framed.push(0);
    proof {
        assert(framed@ =~= stuff(enc_envelope(e@)) + seq![0u8]);
    }
    Some(framed)
}

} // verus!
