//! Primitive layer of the wire format.
//!
//! Every message on the radio and on the host link is a deterministic tagged
//! serialization: a one-byte variant discriminant followed by flat
//! little-endian fields.  Fixed-width integers (`u16`, `u32`, `u64`) are
//! little-endian; size fields (`usize`) and signed fields (`i32`) use a
//! base-128 variable-length encoding so that the format does not depend on
//! the machine's word width, signed values zigzag-folded first; byte strings
//! are length-prefixed by such a variable-length integer.
//!
//! Encoders are described by spec functions on sequences of bytes, decoders
//! by spec functions from byte sequences to a value and a consumed length;
//! the executable functions return exactly what those spec functions say,
//! and round-trip lemmas relate the two.

use vstd::prelude::*;
use vstd::arithmetic::div_mod::lemma_fundamental_div_mod;

verus! {

// ---------------------------------------------------------------------------
// Little-endian fixed-width integers
// ---------------------------------------------------------------------------

/// The `n`-byte little-endian encoding of `x` (low byte first).
pub open spec fn le_bytes(x: nat, n: nat) -> Seq<u8>
    decreases n,
{
    if n == 0 {
        Seq::empty()
    } else {
        seq![(x % 256) as u8] + le_bytes(x / 256, (n - 1) as nat)
    }
}

/// `256^n`, the number of values an `n`-byte field can hold.
pub open spec fn pow256(n: nat) -> nat
    decreases n,
{
    if n == 0 {
        1
    } else {
        256 * pow256((n - 1) as nat)
    }
}

pub proof fn lemma_le_bytes_len(x: nat, n: nat)
    ensures
        le_bytes(x, n).len() == n,
    decreases n,
{
    if n > 0 {
        lemma_le_bytes_len(x / 256, (n - 1) as nat);
    }
}

/// The value a little-endian byte sequence stands for.
pub open spec fn le_val(s: Seq<u8>) -> nat
    decreases s.len(),
{
    if s.len() == 0 {
        0
    } else {
        (s[0] + 256 * le_val(s.skip(1))) as nat
    }
}

pub proof fn lemma_le_roundtrip(x: nat, n: nat)
    requires
        x < pow256(n),
    ensures
        le_val(le_bytes(x, n)) == x,
    decreases n,
{
    if n == 0 {
    } else {
        let q = x / 256;
        assert(q < pow256((n - 1) as nat)) by (nonlinear_arith)
            requires
                x < 256 * pow256((n - 1) as nat),
                q == x / 256,
        {}
        lemma_le_roundtrip(q, (n - 1) as nat);
        lemma_fundamental_div_mod(x as int, 256);
        assert(le_bytes(x, n).skip(1) =~= le_bytes(q, (n - 1) as nat));
    }
}

/// Little-endian decoding is determined byte by byte: a sequence starting
/// with the encoding of `x` decodes to `x` in its first `n` positions.
pub proof fn lemma_le_dec(x: nat, n: nat, rest: Seq<u8>)
    requires
        x < pow256(n),
    ensures
        le_val((le_bytes(x, n) + rest).take(n as int)) == x,
        (le_bytes(x, n) + rest).skip(n as int) == rest,
{
    lemma_le_bytes_len(x, n);
    assert((le_bytes(x, n) + rest).take(n as int) =~= le_bytes(x, n));
    assert((le_bytes(x, n) + rest).skip(n as int) =~= rest);
    lemma_le_roundtrip(x, n);
}

/// Appends the 2-byte little-endian encoding of `x`.
pub fn put_u16(out: &mut Vec<u8>, x: u16)
    ensures
        final(out)@ == old(out)@ + le_bytes(x as nat, 2),
{
    out.push((x % 256) as u8);
    out.push(((x / 256) % 256) as u8);
    proof {
        reveal_with_fuel(le_bytes, 3);
        assert(out@ =~= old(out)@ + le_bytes(x as nat, 2));
    }
}

/// Appends the 4-byte little-endian encoding of `x`.
pub fn put_u32(out: &mut Vec<u8>, x: u32)
    ensures
        final(out)@ == old(out)@ + le_bytes(x as nat, 4),
{
    out.push((x % 256) as u8);
    out.push(((x / 256) % 256) as u8);
    out.push(((x / 65536) % 256) as u8);
    out.push(((x / 16777216) % 256) as u8);
    proof {
        reveal_with_fuel(le_bytes, 5);
        assert(out@ =~= old(out)@ + le_bytes(x as nat, 4));
    }
}

/// Appends the 8-byte little-endian encoding of `x`.
pub fn put_u64(out: &mut Vec<u8>, x: u64)
    ensures
        final(out)@ == old(out)@ + le_bytes(x as nat, 8),
{
    let mut v: u64 = x;
    let mut i: usize = 0;
    while i < 8
        invariant
            0 <= i <= 8,
            out@ + le_bytes(v as nat, (8 - i) as nat) == old(out)@ + le_bytes(x as nat, 8),
        decreases 8 - i,
    {
        proof {
            assert(le_bytes(v as nat, (8 - i) as nat) =~= seq![(v % 256) as u8] + le_bytes(
                (v as nat) / 256,
                (8 - (i + 1)) as nat,
            ));
        }
        out.push((v % 256) as u8);
        v = v / 256;
        i = i + 1;
        proof {
            assert(out@ + le_bytes(v as nat, (8 - i) as nat) =~= old(out)@ + le_bytes(
                x as nat,
                8,
            ));
        }
    }
    proof {
        assert(out@ =~= out@ + le_bytes(v as nat, 0));
    }
}

/// What a fixed-width read yields: the value of the first `n` bytes,
/// or nothing when fewer than `n` bytes remain.
pub open spec fn dec_le(s: Seq<u8>, n: nat) -> Option<(nat, int)> {
    if s.len() < n {
        None
    } else {
        Some((le_val(s.take(n as int)), n as int))
    }
}

pub proof fn lemma_dec_le_enc(x: nat, n: nat, rest: Seq<u8>)
    requires
        x < pow256(n),
    ensures
        dec_le(le_bytes(x, n) + rest, n) == Some((x, n as int)),
{
    lemma_le_bytes_len(x, n);
    lemma_le_dec(x, n, rest);
}

/// Reads a 2-byte little-endian field at `pos`.
pub fn get_u16(s: &[u8], pos: usize) -> (r: Option<(u16, usize)>)
    requires
        pos <= s@.len(),
    ensures
        match dec_le(s@.skip(pos as int), 2) {
            Some((v, n)) => r matches Some((w, p)) && w as nat == v % 0x1_0000 && p == pos + n,
            None => r is None,
        },
        r is Some ==> pos + 2 <= s@.len(),
{
    if s.len() - pos < 2 {
        return None;
    }
    let b0 = s[pos];
    let b1 = s[pos + 1];
    let v: u16 = b0 as u16 + 256 * (b1 as u16);
    proof {
        let t = s@.skip(pos as int);
        reveal_with_fuel(le_val, 3);
        assert(t.take(2)[0] == b0 && t.take(2).skip(1) =~= seq![b1]);
        assert(seq![b1].skip(1) =~= Seq::<u8>::empty());
        assert(le_val(t.take(2)) == b0 + 256 * b1);
    }
    Some((v, pos + 2))
}

/// Reads a 4-byte little-endian field at `pos`.
pub fn get_u32(s: &[u8], pos: usize) -> (r: Option<(u32, usize)>)
    requires
        pos <= s@.len(),
    ensures
        match dec_le(s@.skip(pos as int), 4) {
            Some((v, n)) => r matches Some((w, p)) && w as nat == v % 0x1_0000_0000 && p == pos
                + n,
            None => r is None,
        },
        r is Some ==> pos + 4 <= s@.len(),
{
    if s.len() - pos < 4 {
        return None;
    }
    let b0 = s[pos];
    let b1 = s[pos + 1];
    let b2 = s[pos + 2];
    let b3 = s[pos + 3];
    let v: u32 = b0 as u32 + 256 * (b1 as u32) + 65536 * (b2 as u32) + 16777216 * (b3 as u32);
    proof {
        let t = s@.skip(pos as int);
        reveal_with_fuel(le_val, 5);
        assert(t.take(4)[0] == b0);
        assert(t.take(4).skip(1) =~= seq![b1, b2, b3]);
        assert(seq![b1, b2, b3].skip(1) =~= seq![b2, b3]);
        assert(seq![b2, b3].skip(1) =~= seq![b3]);
        assert(seq![b3].skip(1) =~= Seq::<u8>::empty());
        assert(le_val(t.take(4)) == b0 + 256 * b1 + 65536 * b2 + 16777216 * b3);
    }
    Some((v, pos + 4))
}

/// Reads an 8-byte little-endian field at `pos`.
pub fn get_u64(s: &[u8], pos: usize) -> (r: Option<(u64, usize)>)
    requires
        pos <= s@.len(),
    ensures
        match dec_le(s@.skip(pos as int), 8) {
            Some((v, n)) => r matches Some((w, p)) && w as nat == v % 0x1_0000_0000_0000_0000
                && p == pos + n,
            None => r is None,
        },
        r is Some ==> pos + 8 <= s@.len(),
{
    if s.len() - pos < 8 {
        return None;
    }
    let b0 = s[pos];
    let b1 = s[pos + 1];
    let b2 = s[pos + 2];
    let b3 = s[pos + 3];
    let b4 = s[pos + 4];
    let b5 = s[pos + 5];
    let b6 = s[pos + 6];
    let b7 = s[pos + 7];
    let lo: u32 = b0 as u32 + 256 * (b1 as u32) + 65536 * (b2 as u32) + 16777216 * (b3 as u32);
    let hi: u32 = b4 as u32 + 256 * (b5 as u32) + 65536 * (b6 as u32) + 16777216 * (b7 as u32);
    let w: u64 = lo as u64 + 0x1_0000_0000 * (hi as u64);
    proof {
        let t = s@.skip(pos as int);
        reveal_with_fuel(le_val, 9);
        assert(t.take(8)[0] == b0);
        assert(t.take(8).skip(1) =~= seq![b1, b2, b3, b4, b5, b6, b7]);
        assert(seq![b1, b2, b3, b4, b5, b6, b7].skip(1) =~= seq![b2, b3, b4, b5, b6, b7]);
        assert(seq![b2, b3, b4, b5, b6, b7].skip(1) =~= seq![b3, b4, b5, b6, b7]);
        assert(seq![b3, b4, b5, b6, b7].skip(1) =~= seq![b4, b5, b6, b7]);
        assert(seq![b4, b5, b6, b7].skip(1) =~= seq![b5, b6, b7]);
        assert(seq![b5, b6, b7].skip(1) =~= seq![b6, b7]);
        assert(seq![b6, b7].skip(1) =~= seq![b7]);
        assert(seq![b7].skip(1) =~= Seq::<u8>::empty());
    }
    Some((w, pos + 8))
}

// ---------------------------------------------------------------------------
// Variable-length unsigned integers (base-128, low group first)
// ---------------------------------------------------------------------------

/// The variable-length encoding of `x`: groups of seven bits, low group
/// first, the top bit of a byte set exactly when more groups follow.
pub open spec fn enc_varint(x: nat) -> Seq<u8>
    decreases x,
{
    if x < 128 {
        seq![x as u8]
    } else {
        seq![(128 + x % 128) as u8] + enc_varint(x / 128)
    }
}

/// What a variable-length read yields: the value and the consumed length,
/// or nothing when the input ends inside a value or the value runs past
/// `cap` bytes.  Ten bytes cover every 64-bit value, so readers use cap 10.
pub open spec fn dec_varint(s: Seq<u8>, cap: nat) -> Option<(nat, int)>
    decreases cap,
{
    if cap == 0 || s.len() == 0 {
        None
    } else if s[0] < 128 {
        Some((s[0] as nat, 1))
    } else {
        match dec_varint(s.skip(1), (cap - 1) as nat) {
            None => None,
            Some((v, n)) => Some((((s[0] - 128) as nat + 128 * v) as nat, n + 1)),
        }
    }
}

/// `128^n`, the number of values `n` seven-bit groups can hold.
pub open spec fn pow128(n: nat) -> nat
    decreases n,
{
    if n == 0 {
        1
    } else {
        128 * pow128((n - 1) as nat)
    }
}

pub proof fn lemma_enc_varint_len(x: nat, n: nat)
    requires
        n >= 1,
        x < pow128(n),
    ensures
        enc_varint(x).len() <= n,
    decreases n,
{
    if x >= 128 {
        let q = x / 128;
        assert(n >= 2) by {
            if n == 1 {
                assert(pow128(1) == 128);
            }
        }
        assert(q < pow128((n - 1) as nat)) by (nonlinear_arith)
            requires
                x < 128 * pow128((n - 1) as nat),
                q == x / 128,
        {}
        lemma_enc_varint_len(q, (n - 1) as nat);
    }
}

/// Every `u64` value encodes in at most ten bytes.
pub proof fn lemma_enc_varint_len_u64(x: u64)
    ensures
        1 <= enc_varint(x as nat).len() <= 10,
{
    assert(pow128(10) > 0x1_0000_0000_0000_0000) by {
        reveal_with_fuel(pow128, 11);
    }
    lemma_enc_varint_len(x as nat, 10);
}

/// Round trip: a stream that starts with the encoding of `x` decodes to
/// `x`, consuming exactly the encoding.
pub proof fn lemma_dec_enc_varint(x: nat, rest: Seq<u8>, cap: nat)
    requires
        enc_varint(x).len() <= cap,
    ensures
        dec_varint(enc_varint(x) + rest, cap) == Some((x, enc_varint(x).len() as int)),
    decreases x,
{
    let s = enc_varint(x) + rest;
    if x < 128 {
        assert(s[0] == x as u8);
    } else {
        let q = x / 128;
        assert(q < x) by (nonlinear_arith)
            requires
                x >= 128,
                q == x / 128,
        {}
        assert(s.skip(1) =~= enc_varint(q) + rest);
        lemma_dec_enc_varint(q, rest, (cap - 1) as nat);
        lemma_fundamental_div_mod(x as int, 128);
    }
}

/// Appends the variable-length encoding of `x`.
pub fn put_varint(out: &mut Vec<u8>, x: u64)
    ensures
        final(out)@ == old(out)@ + enc_varint(x as nat),
{
    let mut v: u64 = x;
    while v >= 128
        invariant
            out@ + enc_varint(v as nat) == old(out)@ + enc_varint(x as nat),
        decreases v,
    {
        proof {
            assert(enc_varint(v as nat) =~= seq![(128 + v % 128) as u8] + enc_varint(
                (v as nat) / 128,
            ));
        }
        out.push((128 + (v % 128)) as u8);
        let next: u64 = v / 128;
        proof {
            assert(next < v) by (nonlinear_arith)
                requires
                    v >= 128,
                    next == v / 128,
            {}
            assert(out@ + enc_varint(next as nat) =~= old(out)@ + enc_varint(x as nat));
        }
        v = next;
    }
    out.push(v as u8);
    proof {
        assert(out@ =~= old(out)@ + enc_varint(x as nat));
    }
}

/// Whether a spec-level varint read yields a value an executable reader
/// can hold.
pub open spec fn varint_fits(o: Option<(nat, int)>) -> bool {
    o matches Some((v, _)) && v <= u64::MAX
}

/// Reads a variable-length integer at `pos` (at most ten bytes).
pub fn get_varint(s: &[u8], pos: usize) -> (r: Option<(u64, usize)>)
    requires
        pos <= s@.len(),
    ensures
        r is Some <==> varint_fits(dec_varint(s@.skip(pos as int), 10)),
        r matches Some((w, p)) ==> w as nat == dec_varint(s@.skip(pos as int), 10).unwrap().0
            && p == pos + dec_varint(s@.skip(pos as int), 10).unwrap().1,
        r matches Some((_, p)) ==> pos < p <= s@.len(),
{
    get_varint_rec(s, pos, 10)
}

fn get_varint_rec(s: &[u8], pos: usize, cap: u8) -> (r: Option<(u64, usize)>)
    requires
        pos <= s@.len(),
    ensures
        r is Some <==> varint_fits(dec_varint(s@.skip(pos as int), cap as nat)),
        r matches Some((w, p)) ==> w as nat == dec_varint(
            s@.skip(pos as int),
            cap as nat,
        ).unwrap().0 && p == pos + dec_varint(s@.skip(pos as int), cap as nat).unwrap().1,
        r matches Some((_, p)) ==> pos < p <= s@.len(),
    decreases cap,
{
    if cap == 0 || pos == s.len() {
        return None;
    }
    let b = s[pos];
    if b < 128 {
        return Some((b as u64, pos + 1));
    }
    proof {
        assert(s@.skip(pos as int).skip(1) =~= s@.skip(pos as int + 1));
    }
    match get_varint_rec(s, pos + 1, cap - 1) {
        None => {
            proof {
                let t = s@.skip(pos as int);
                if dec_varint(t, cap as nat) is Some {
                    let (v, n) = dec_varint(t, cap as nat).unwrap();
                    let (vi, ni) = dec_varint(t.skip(1), (cap - 1) as nat).unwrap();
                    assert(v == (b - 128) as nat + 128 * vi);
                    assert(vi > u64::MAX);
                    assert(v > u64::MAX) by (nonlinear_arith)
                        requires
                            vi > u64::MAX,
                            v >= 128 * vi,
                    {}
                }
            }
            None
        },
        Some((v, np)) => {
            let low: u64 = (b - 128) as u64;
            if v > (u64::MAX - low) / 128 {
                proof {
                    let full = low as nat + 128 * (v as nat);
                    assert(full > u64::MAX) by (nonlinear_arith)
                        requires
                            v as nat > ((u64::MAX - low) as nat) / 128,
                            full == low as nat + 128 * (v as nat),
                            low < 128,
                    {}
                }
                None
            } else {
                proof {
                    assert(128 * (v as nat) + low <= u64::MAX) by (nonlinear_arith)
                        requires
                            v as nat <= ((u64::MAX - low) as nat) / 128,
                            low < 128,
                    {}
                }
                Some((low + 128 * v, np))
            }
        },
    }
}

// ---------------------------------------------------------------------------
// Zigzag folding of signed fields
// ---------------------------------------------------------------------------

/// Folds a signed value onto the unsigned line: 0, -1, 1, -2, 2, ...
pub open spec fn zigzag(x: int) -> nat {
    if x >= 0 {
        (2 * x) as nat
    } else {
        (2 * (-x) - 1) as nat
    }
}

/// Unfolds a zigzag value.
pub open spec fn unzigzag(v: nat) -> int {
    if v % 2 == 0 {
        (v / 2) as int
    } else {
        -(((v + 1) / 2) as int)
    }
}

/// The zigzag fold of a signed 32-bit value.
pub fn zigzag32(x: i32) -> (r: u64)
    ensures
        r as nat == zigzag(x as int),
{
    if x >= 0 {
        2 * (x as u64)
    } else {
        let m: u64 = (-(x as i64)) as u64;
        2 * m - 1
    }
}

/// The signed 32-bit value a zigzag fold stands for, when it fits.
pub fn unzigzag32(v: u64) -> (r: Option<i32>)
    ensures
        match r {
            Some(x) => x as int == unzigzag(v as nat) && i32::MIN <= unzigzag(v as nat)
                <= i32::MAX,
            None => !(i32::MIN <= unzigzag(v as nat) <= i32::MAX),
        },
{
    if v % 2 == 0 {
        let w: u64 = v / 2;
        if w > i32::MAX as u64 {
            None
        } else {
            Some(w as i32)
        }
    } else {
        let w: u64 = v / 2 + 1;
        if w > 0x8000_0000 {
            None
        } else {
            proof {
                assert((v as nat + 1) / 2 == (v as nat) / 2 + 1);
            }
            Some((-(w as i64)) as i32)
        }
    }
}

} // verus!
