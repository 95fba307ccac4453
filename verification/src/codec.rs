//! Typed layer of the wire format: the tagged serialization of the message
//! schema in `proto`, built on the primitives in `wire`.
//!
//! Discriminants are fixed by the format, not by declaration order:
//! radio messages use `SetCell = 0`, `SetGrid = 1`, `SetLine = 2`,
//! `StartTurn = 3`; host-link messages use `SetCell = 0`, `SetGrid = 1`,
//! `SetLine = 2`, `Loopback = 3`, `AnnounceTurn = 4`, `LoadLoopBack = 5`;
//! envelopes use `Log = 0`, `Warn = 1`, `Error = 2`, `BinaryRaw = 3`,
//! `ProtocolMessage = 4`.  An unknown discriminant fails the decode.

use vstd::prelude::*;
use crate::proto::{ApiGrid, Cell, CellCommand, GridCommand, HostEnvelope, HostEnvelopeView,
    Line, LineCommand, ModemUartMessages, RadioMessages, RGB};
use crate::wire::{
    dec_le, dec_varint, enc_varint, get_u16, get_u64, get_varint, le_bytes, le_val,
    lemma_dec_enc_varint, lemma_dec_le_enc, lemma_enc_varint_len_u64, lemma_le_bytes_len,
    pow256, put_u16, put_u64, put_varint, unzigzag, unzigzag32, zigzag, zigzag32,
};
use vstd::array::group_array_axioms;

verus! {

/// Dropping the first element of a one-element prefix plus a tail is the tail.
pub proof fn lemma_head_skip<A>(d: A, x: Seq<A>)
    ensures
        (seq![d] + x).skip(1) == x,
        (seq![d] + x)[0] == d,
        (seq![d] + x).len() == 1 + x.len(),
{
    assert((seq![d] + x).skip(1) =~= x);
}

/// Skipping in two steps is skipping once.
pub proof fn lemma_skip_skip<A>(s: Seq<A>, a: int, b: int)
    requires
        0 <= a,
        0 <= b,
        a + b <= s.len(),
    ensures
        s.skip(a).skip(b) == s.skip(a + b),
{
    assert(s.skip(a).skip(b) =~= s.skip(a + b));
}

// ---------------------------------------------------------------------------
// Length-prefixed byte strings
// ---------------------------------------------------------------------------

/// A byte string is its length as a variable-length integer, then its bytes.
pub open spec fn enc_bytes(b: Seq<u8>) -> Seq<u8> {
    enc_varint(b.len()) + b
}

/// What a byte-string read yields.
pub open spec fn dec_bytes(s: Seq<u8>) -> Option<(Seq<u8>, int)> {
    match dec_varint(s, 10) {
        None => None,
        Some((len, n)) => if len > usize::MAX || s.len() < n + len {
            None
        } else {
            Some((s.subrange(n, n + len), n + len))
        },
    }
}

pub proof fn lemma_bytes_roundtrip(b: Seq<u8>, rest: Seq<u8>)
    requires
        b.len() <= usize::MAX,
    ensures
        dec_bytes(enc_bytes(b) + rest) == Some((b, enc_bytes(b).len() as int)),
{
    let e = enc_varint(b.len());
    assert(b.len() <= u64::MAX);
    lemma_enc_varint_len_u64(b.len() as u64);
    assert(enc_bytes(b) + rest =~= e + (b + rest));
    lemma_dec_enc_varint(b.len(), b + rest, 10);
    let s = enc_bytes(b) + rest;
    assert(s.subrange(e.len() as int, e.len() as int + b.len() as int) =~= b);
}

/// Appends a length-prefixed byte string.
pub fn put_bytes(out: &mut Vec<u8>, b: &Vec<u8>)
    ensures
        final(out)@ == old(out)@ + enc_bytes(b@),
{
    put_varint(out, b.len() as u64);
    let mut i: usize = 0;
    while i < b.len()
        invariant
            0 <= i <= b@.len(),
            out@ == old(out)@ + enc_varint(b@.len()) + b@.take(i as int),
        decreases b@.len() - i,
    {
        out.push(b[i]);
        i = i + 1;
        proof {
            assert(out@ =~= old(out)@ + enc_varint(b@.len()) + b@.take(i as int));
        }
    }
    proof {
        assert(out@ =~= old(out)@ + enc_bytes(b@));
    }
}

/// Reads a length-prefixed byte string at `pos`.
pub fn get_bytes(s: &[u8], pos: usize) -> (r: Option<(Vec<u8>, usize)>)
    requires
        pos <= s@.len(),
    ensures
        match dec_bytes(s@.skip(pos as int)) {
            None => r is None,
            Some((v, n)) => r matches Some((b, p)) && b@ == v && p == pos + n,
        },
        r matches Some((_, p)) ==> pos < p <= s@.len(),
{
    let t_len = s.len();
    let ghost t = s@.skip(pos as int);
    match get_varint(s, pos) {
        None => {
            proof {
                if dec_varint(t, 10) is Some {
                    let (v, n) = dec_varint(t, 10).unwrap();
                    assert(v > u64::MAX);
                }
            }
            None
        },
        Some((len64, p1)) => {
            if len64 > usize::MAX as u64 {
                return None;
            }
            let len: usize = len64 as usize;
            if t_len - p1 < len {
                proof {
                    let (v, n) = dec_varint(t, 10).unwrap();
                    assert(t.len() < n + v);
                }
                return None;
            }
            let chunk: &[u8] = vstd::slice::slice_subrange(s, p1, p1 + len);
            let b: Vec<u8> = vstd::slice::slice_to_vec(chunk);
            proof {
                let (v, n) = dec_varint(t, 10).unwrap();
                assert(b@ =~= t.subrange(n, n + v));
            }
            Some((b, p1 + len))
        },
    }
}

// ---------------------------------------------------------------------------
// Cells and cell commands
// ---------------------------------------------------------------------------

/// A cell: row, column, then the three color channels.
pub open spec fn enc_cell(c: Cell) -> Seq<u8> {
    enc_varint(c.row as nat) + enc_varint(c.column as nat) + seq![c.red, c.green, c.blue]
}

/// What a cell read yields.
pub open spec fn dec_cell(s: Seq<u8>) -> Option<(Cell, int)> {
    match dec_varint(s, 10) {
        None => None,
        Some((row, n1)) => if row > usize::MAX {
            None
        } else {
            match dec_varint(s.skip(n1), 10) {
                None => None,
                Some((col, n2)) => if col > usize::MAX || s.len() < n1 + n2 + 3 {
                    None
                } else {
                    Some(
                        (
                            Cell {
                                row: row as usize,
                                column: col as usize,
                                red: s[n1 + n2],
                                green: s[n1 + n2 + 1],
                                blue: s[n1 + n2 + 2],
                            },
                            n1 + n2 + 3,
                        ),
                    )
                },
            }
        },
    }
}

pub proof fn lemma_cell_roundtrip(c: Cell, rest: Seq<u8>)
    ensures
        dec_cell(enc_cell(c) + rest) == Some((c, enc_cell(c).len() as int)),
{
    let e1 = enc_varint(c.row as nat);
    let e2 = enc_varint(c.column as nat);
    let tail = seq![c.red, c.green, c.blue];
    let s = enc_cell(c) + rest;
    lemma_enc_varint_len_u64(c.row as u64);
    lemma_enc_varint_len_u64(c.column as u64);
    assert(s =~= e1 + (e2 + tail + rest));
    lemma_dec_enc_varint(c.row as nat, e2 + tail + rest, 10);
    assert(s.skip(e1.len() as int) =~= e2 + (tail + rest));
    lemma_dec_enc_varint(c.column as nat, tail + rest, 10);
    let p = e1.len() + e2.len();
    assert(s[p as int] == c.red && s[p as int + 1] == c.green && s[p as int + 2] == c.blue);
}

/// Appends a cell.
pub fn put_cell(out: &mut Vec<u8>, c: &Cell)
    ensures
        final(out)@ == old(out)@ + enc_cell(*c),
{
    put_varint(out, c.row as u64);
    put_varint(out, c.column as u64);
    out.push(c.red);
    out.push(c.green);
    out.push(c.blue);
    proof {
        assert(out@ =~= old(out)@ + enc_cell(*c));
    }
}

/// Reads a cell at `pos`.
pub fn get_cell(s: &[u8], pos: usize) -> (r: Option<(Cell, usize)>)
    requires
        pos <= s@.len(),
    ensures
        match dec_cell(s@.skip(pos as int)) {
            None => r is None,
            Some((c, n)) => r matches Some((c2, p)) && c2 == c && p == pos + n,
        },
        r matches Some((_, p)) ==> pos < p <= s@.len(),
{
    let ghost t = s@.skip(pos as int);
    let (row64, p1) = match get_varint(s, pos) {
        None => {
            proof {
                if dec_varint(t, 10) is Some {
                    let (v, n) = dec_varint(t, 10).unwrap();
                    assert(v > u64::MAX >= usize::MAX);
                }
            }
            return None;
        },
        Some(x) => x,
    };
    if row64 > usize::MAX as u64 {
        return None;
    }
    proof {
        assert(s@.skip(p1 as int) =~= t.skip(dec_varint(t, 10).unwrap().1));
    }
    let (col64, p2) = match get_varint(s, p1) {
        None => {
            proof {
                let n1 = dec_varint(t, 10).unwrap().1;
                if dec_varint(t.skip(n1), 10) is Some {
                    let (v, n) = dec_varint(t.skip(n1), 10).unwrap();
                    assert(v > u64::MAX >= usize::MAX);
                }
            }
            return None;
        },
        Some(x) => x,
    };
    if col64 > usize::MAX as u64 {
        return None;
    }
    if s.len() - p2 < 3 {
        return None;
    }
    let c = Cell {
        row: row64 as usize,
        column: col64 as usize,
        red: s[p2],
        green: s[p2 + 1],
        blue: s[p2 + 2],
    };
    Some((c, p2 + 3))
}

/// A cell command: source, destination, then the cell.
pub open spec fn enc_cell_command(c: CellCommand) -> Seq<u8> {
    le_bytes(c.source as nat, 2) + le_bytes(c.dest as nat, 2) + enc_cell(c.cell)
}

/// What a cell-command read yields.
pub open spec fn dec_cell_command(s: Seq<u8>) -> Option<(CellCommand, int)> {
    match dec_le(s, 2) {
        None => None,
        Some((src, n1)) => match dec_le(s.skip(n1), 2) {
            None => None,
            Some((dst, n2)) => match dec_cell(s.skip(n1 + n2)) {
                None => None,
                Some((cell, n3)) => Some(
                    (
                        CellCommand {
                            source: (src % 0x1_0000) as u16,
                            dest: (dst % 0x1_0000) as u16,
                            cell,
                        },
                        n1 + n2 + n3,
                    ),
                ),
            },
        },
    }
}

pub proof fn lemma_cell_command_roundtrip(c: CellCommand, rest: Seq<u8>)
    ensures
        dec_cell_command(enc_cell_command(c) + rest) == Some(
            (c, enc_cell_command(c).len() as int),
        ),
{
    let e1 = le_bytes(c.source as nat, 2);
    let e2 = le_bytes(c.dest as nat, 2);
    let e3 = enc_cell(c.cell);
    let s = enc_cell_command(c) + rest;
    assert((c.source as nat) < pow256(2) && (c.dest as nat) < pow256(2)) by {
        reveal_with_fuel(pow256, 3);
    }
    crate::wire::lemma_le_bytes_len(c.source as nat, 2);
    crate::wire::lemma_le_bytes_len(c.dest as nat, 2);
    assert(s =~= e1 + (e2 + e3 + rest));
    lemma_dec_le_enc(c.source as nat, 2, e2 + e3 + rest);
    assert(s.skip(2) =~= e2 + (e3 + rest));
    lemma_dec_le_enc(c.dest as nat, 2, e3 + rest);
    assert(s.skip(4) =~= e3 + rest);
    lemma_cell_roundtrip(c.cell, rest);
}

/// Appends a cell command.
pub fn put_cell_command(out: &mut Vec<u8>, c: &CellCommand)
    ensures
        final(out)@ == old(out)@ + enc_cell_command(*c),
{
    put_u16(out, c.source);
    put_u16(out, c.dest);
    put_cell(out, &c.cell);
    proof {
        assert(out@ =~= old(out)@ + enc_cell_command(*c));
    }
}

/// Reads a cell command at `pos`.
pub fn get_cell_command(s: &[u8], pos: usize) -> (r: Option<(CellCommand, usize)>)
    requires
        pos <= s@.len(),
    ensures
        match dec_cell_command(s@.skip(pos as int)) {
            None => r is None,
            Some((c, n)) => r matches Some((c2, p)) && c2 == c && p == pos + n,
        },
        r matches Some((_, p)) ==> pos < p <= s@.len(),
{
    let ghost t = s@.skip(pos as int);
    let (src, p1) = match get_u16(s, pos) {
        None => {
            return None;
        },
        Some(x) => x,
    };
    proof {
        assert(s@.skip(p1 as int) =~= t.skip(2));
    }
    let (dst, p2) = match get_u16(s, p1) {
        None => {
            return None;
        },
        Some(x) => x,
    };
    proof {
        assert(s@.skip(p2 as int) =~= t.skip(4));
    }
    let (cell, p3) = match get_cell(s, p2) {
        None => {
            return None;
        },
        Some(x) => x,
    };
    Some((CellCommand { source: src, dest: dst, cell }, p3))
}

// ---------------------------------------------------------------------------
// Lines and line commands
// ---------------------------------------------------------------------------

/// A line: row, column, the color channels, then the zigzag-folded
/// direction and length.
pub open spec fn enc_line(l: Line) -> Seq<u8> {
    enc_varint(l.row as nat) + enc_varint(l.column as nat) + seq![l.red, l.green, l.blue]
        + enc_varint(zigzag(l.direction as int)) + enc_varint(zigzag(l.length as int))
}

/// What a line read yields.
pub open spec fn dec_line(s: Seq<u8>) -> Option<(Line, int)> {
    match dec_varint(s, 10) {
        None => None,
        Some((row, n1)) => if row > usize::MAX {
            None
        } else {
            match dec_varint(s.skip(n1), 10) {
                None => None,
                Some((col, n2)) => if col > usize::MAX || s.len() < n1 + n2 + 3 {
                    None
                } else {
                    let p = n1 + n2;
                    match dec_varint(s.skip(p + 3), 10) {
                        None => None,
                        Some((d, n3)) => if !(i32::MIN <= unzigzag(d) <= i32::MAX) {
                            None
                        } else {
                            match dec_varint(s.skip(p + 3 + n3), 10) {
                                None => None,
                                Some((e, n4)) => if !(i32::MIN <= unzigzag(e) <= i32::MAX) {
                                    None
                                } else {
                                    Some(
                                        (
                                            Line {
                                                row: row as usize,
                                                column: col as usize,
                                                red: s[p],
                                                green: s[p + 1],
                                                blue: s[p + 2],
                                                direction: unzigzag(d) as i32,
                                                length: unzigzag(e) as i32,
                                            },
                                            p + 3 + n3 + n4,
                                        ),
                                    )
                                },
                            }
                        },
                    }
                },
            }
        },
    }
}

/// The zigzag fold of a 32-bit value fits a `u64`.
pub proof fn lemma_zigzag_u64(x: i32)
    ensures
        zigzag(x as int) <= u64::MAX,
        unzigzag(zigzag(x as int)) == x as int,
{
}

#[verifier::rlimit(60)]
pub proof fn lemma_line_roundtrip(l: Line, rest: Seq<u8>)
    ensures
        dec_line(enc_line(l) + rest) == Some((l, enc_line(l).len() as int)),
{
    let e1 = enc_varint(l.row as nat);
    let e2 = enc_varint(l.column as nat);
    let tail = seq![l.red, l.green, l.blue];
    let e4 = enc_varint(zigzag(l.direction as int));
    let e5 = enc_varint(zigzag(l.length as int));
    let s = enc_line(l) + rest;
    lemma_enc_varint_len_u64(l.row as u64);
    lemma_enc_varint_len_u64(l.column as u64);
    lemma_zigzag_u64(l.direction);
    lemma_zigzag_u64(l.length);
    lemma_enc_varint_len_u64(zigzag(l.direction as int) as u64);
    lemma_enc_varint_len_u64(zigzag(l.length as int) as u64);
    assert(s =~= e1 + (e2 + tail + e4 + e5 + rest));
    lemma_dec_enc_varint(l.row as nat, e2 + tail + e4 + e5 + rest, 10);
    assert(s.skip(e1.len() as int) =~= e2 + (tail + e4 + e5 + rest));
    lemma_dec_enc_varint(l.column as nat, tail + e4 + e5 + rest, 10);
    let p = e1.len() + e2.len();
    assert(s[p as int] == l.red && s[p as int + 1] == l.green && s[p as int + 2] == l.blue);
    assert(s.skip(p as int + 3) =~= e4 + (e5 + rest));
    lemma_dec_enc_varint(zigzag(l.direction as int), e5 + rest, 10);
    assert(s.skip(p as int + 3 + e4.len()) =~= e5 + rest);
    lemma_dec_enc_varint(zigzag(l.length as int), rest, 10);
}

/// Appends a line.
pub fn put_line(out: &mut Vec<u8>, l: &Line)
    ensures
        final(out)@ == old(out)@ + enc_line(*l),
{
    put_varint(out, l.row as u64);
    put_varint(out, l.column as u64);
    out.push(l.red);
    out.push(l.green);
    out.push(l.blue);
    let d = zigzag32(l.direction);
    put_varint(out, d);
    let e = zigzag32(l.length);
    put_varint(out, e);
    proof {
        assert(out@ =~= old(out)@ + enc_line(*l));
    }
}

/// Reads a line at `pos`.
pub fn get_line(s: &[u8], pos: usize) -> (r: Option<(Line, usize)>)
    requires
        pos <= s@.len(),
    ensures
        match dec_line(s@.skip(pos as int)) {
            None => r is None,
            Some((l, n)) => r matches Some((l2, p)) && l2 == l && p == pos + n,
        },
        r matches Some((_, p)) ==> pos < p <= s@.len(),
{
    let ghost t = s@.skip(pos as int);
    let (row64, p1) = match get_varint(s, pos) {
        None => {
            proof {
                if dec_varint(t, 10) is Some {
                    let (v, n) = dec_varint(t, 10).unwrap();
                    assert(v > u64::MAX >= usize::MAX);
                }
            }
            return None;
        },
        Some(x) => x,
    };
    if row64 > usize::MAX as u64 {
        return None;
    }
    proof {
        assert(s@.skip(p1 as int) =~= t.skip(dec_varint(t, 10).unwrap().1));
    }
    let (col64, p2) = match get_varint(s, p1) {
        None => {
            proof {
                let n1 = dec_varint(t, 10).unwrap().1;
                if dec_varint(t.skip(n1), 10) is Some {
                    let (v, n) = dec_varint(t.skip(n1), 10).unwrap();
                    assert(v > u64::MAX >= usize::MAX);
                }
            }
            return None;
        },
        Some(x) => x,
    };
    if col64 > usize::MAX as u64 {
        return None;
    }
    if s.len() - p2 < 3 {
        return None;
    }
    let ghost n1 = dec_varint(t, 10).unwrap().1;
    let ghost n2 = dec_varint(t.skip(n1), 10).unwrap().1;
    proof {
        assert(s@.skip(p2 as int + 3) =~= t.skip(n1 + n2 + 3));
    }
    let (d64, p3) = match get_varint(s, p2 + 3) {
        None => {
            proof {
                if dec_varint(t.skip(n1 + n2 + 3), 10) is Some {
                    let (v, n) = dec_varint(t.skip(n1 + n2 + 3), 10).unwrap();
                    assert(v > u64::MAX);
                    lemma_unzigzag_large(v);
                }
            }
            return None;
        },
        Some(x) => x,
    };
    let direction = match unzigzag32(d64) {
        None => {
            return None;
        },
        Some(x) => x,
    };
    let ghost n3 = dec_varint(t.skip(n1 + n2 + 3), 10).unwrap().1;
    proof {
        assert(s@.skip(p3 as int) =~= t.skip(n1 + n2 + 3 + n3));
    }
    let (e64, p4) = match get_varint(s, p3) {
        None => {
            proof {
                if dec_varint(t.skip(n1 + n2 + 3 + n3), 10) is Some {
                    let (v, n) = dec_varint(t.skip(n1 + n2 + 3 + n3), 10).unwrap();
                    assert(v > u64::MAX);
                    lemma_unzigzag_large(v);
                }
            }
            return None;
        },
        Some(x) => x,
    };
    let length = match unzigzag32(e64) {
        None => {
            return None;
        },
        Some(x) => x,
    };
    let l = Line {
        row: row64 as usize,
        column: col64 as usize,
        red: s[p2],
        green: s[p2 + 1],
        blue: s[p2 + 2],
        direction,
        length,
    };
    Some((l, p4))
}

/// A value beyond the 64-bit range unfolds outside the 32-bit range.
pub proof fn lemma_unzigzag_large(v: nat)
    requires
        v > u64::MAX,
    ensures
        !(i32::MIN <= unzigzag(v) <= i32::MAX),
{
}

/// A line command: source, destination, then the line.
pub open spec fn enc_line_command(c: LineCommand) -> Seq<u8> {
    le_bytes(c.source as nat, 2) + le_bytes(c.dest as nat, 2) + enc_line(c.line)
}

/// What a line-command read yields.
pub open spec fn dec_line_command(s: Seq<u8>) -> Option<(LineCommand, int)> {
    match dec_le(s, 2) {
        None => None,
        Some((src, n1)) => match dec_le(s.skip(n1), 2) {
            None => None,
            Some((dst, n2)) => match dec_line(s.skip(n1 + n2)) {
                None => None,
                Some((line, n3)) => Some(
                    (
                        LineCommand {
                            source: (src % 0x1_0000) as u16,
                            dest: (dst % 0x1_0000) as u16,
                            line,
                        },
                        n1 + n2 + n3,
                    ),
                ),
            },
        },
    }
}

pub proof fn lemma_line_command_roundtrip(c: LineCommand, rest: Seq<u8>)
    ensures
        dec_line_command(enc_line_command(c) + rest) == Some(
            (c, enc_line_command(c).len() as int),
        ),
{
    let e1 = le_bytes(c.source as nat, 2);
    let e2 = le_bytes(c.dest as nat, 2);
    let e3 = enc_line(c.line);
    let s = enc_line_command(c) + rest;
    assert((c.source as nat) < pow256(2) && (c.dest as nat) < pow256(2)) by {
        reveal_with_fuel(pow256, 3);
    }
    lemma_le_bytes_len(c.source as nat, 2);
    lemma_le_bytes_len(c.dest as nat, 2);
    assert(s =~= e1 + (e2 + e3 + rest));
    lemma_dec_le_enc(c.source as nat, 2, e2 + e3 + rest);
    assert(s.skip(2) =~= e2 + (e3 + rest));
    lemma_dec_le_enc(c.dest as nat, 2, e3 + rest);
    assert(s.skip(4) =~= e3 + rest);
    lemma_line_roundtrip(c.line, rest);
}

/// Appends a line command.
pub fn put_line_command(out: &mut Vec<u8>, c: &LineCommand)
    ensures
        final(out)@ == old(out)@ + enc_line_command(*c),
{
    put_u16(out, c.source);
    put_u16(out, c.dest);
    put_line(out, &c.line);
    proof {
        assert(out@ =~= old(out)@ + enc_line_command(*c));
    }
}

/// Reads a line command at `pos`.
pub fn get_line_command(s: &[u8], pos: usize) -> (r: Option<(LineCommand, usize)>)
    requires
        pos <= s@.len(),
    ensures
        match dec_line_command(s@.skip(pos as int)) {
            None => r is None,
            Some((c, n)) => r matches Some((c2, p)) && c2 == c && p == pos + n,
        },
        r matches Some((_, p)) ==> pos < p <= s@.len(),
{
    let ghost t = s@.skip(pos as int);
    let (src, p1) = match get_u16(s, pos) {
        None => {
            return None;
        },
        Some(x) => x,
    };
    proof {
        assert(s@.skip(p1 as int) =~= t.skip(2));
    }
    let (dst, p2) = match get_u16(s, p1) {
        None => {
            return None;
        },
        Some(x) => x,
    };
    proof {
        assert(s@.skip(p2 as int) =~= t.skip(4));
    }
    let (line, p3) = match get_line(s, p2) {
        None => {
            return None;
        },
        Some(x) => x,
    };
    Some((LineCommand { source: src, dest: dst, line }, p3))
}

// ---------------------------------------------------------------------------
// Grids and grid commands
// ---------------------------------------------------------------------------

/// One color: the three channels in order.
pub open spec fn enc_rgb(p: RGB) -> Seq<u8> {
    seq![p.red, p.green, p.blue]
}

/// The color whose channels sit at `k`, `k + 1`, `k + 2`.
pub open spec fn rgb_at(s: Seq<u8>, k: int) -> RGB {
    RGB { red: s[k], green: s[k + 1], blue: s[k + 2] }
}

/// A row of eight colors, 24 bytes.
pub open spec fn enc_grid_row(r: [RGB; 8]) -> Seq<u8> {
    enc_rgb(r@[0]) + (enc_rgb(r@[1]) + (enc_rgb(r@[2]) + (enc_rgb(r@[3]) + (enc_rgb(r@[4]) + (
    enc_rgb(r@[5]) + (enc_rgb(r@[6]) + enc_rgb(r@[7])))))))
}

/// The row of eight colors starting at `base`.
#[verifier::opaque]
pub open spec fn grid_row_at(s: Seq<u8>, base: int) -> [RGB; 8] {
    [
        rgb_at(s, base),
        rgb_at(s, base + 3),
        rgb_at(s, base + 6),
        rgb_at(s, base + 9),
        rgb_at(s, base + 12),
        rgb_at(s, base + 15),
        rgb_at(s, base + 18),
        rgb_at(s, base + 21),
    ]
}

/// The eight rows of a grid, row 0 first, 192 bytes.
pub open spec fn enc_grid_cells(g: [[RGB; 8]; 8]) -> Seq<u8> {
    enc_grid_row(g@[0]) + (enc_grid_row(g@[1]) + (enc_grid_row(g@[2]) + (enc_grid_row(g@[3]) + (
    enc_grid_row(g@[4]) + (enc_grid_row(g@[5]) + (enc_grid_row(g@[6]) + enc_grid_row(g@[7])))))))
}

/// The eight rows starting at `base`.
#[verifier::opaque]
pub open spec fn grid_cells_at(s: Seq<u8>, base: int) -> [[RGB; 8]; 8] {
    [
        grid_row_at(s, base),
        grid_row_at(s, base + 24),
        grid_row_at(s, base + 48),
        grid_row_at(s, base + 72),
        grid_row_at(s, base + 96),
        grid_row_at(s, base + 120),
        grid_row_at(s, base + 144),
        grid_row_at(s, base + 168),
    ]
}

pub proof fn lemma_grid_row_at_enc(r: [RGB; 8], s: Seq<u8>, base: int)
    requires
        0 <= base,
        base + 24 <= s.len(),
        s.subrange(base, base + 24) == enc_grid_row(r),
    ensures
        grid_row_at(s, base) == r,
{
    broadcast use group_array_axioms;

    reveal(grid_row_at);
    let b0 = enc_rgb(r@[0]);
    let b1 = enc_rgb(r@[1]);
    let b2 = enc_rgb(r@[2]);
    let b3 = enc_rgb(r@[3]);
    let b4 = enc_rgb(r@[4]);
    let b5 = enc_rgb(r@[5]);
    let b6 = enc_rgb(r@[6]);
    let b7 = enc_rgb(r@[7]);
    let t0 = s.subrange(base, base + 24);
    assert(t0 == b0 + (b1 + (b2 + (b3 + (b4 + (b5 + (b6 + b7)))))));
    assert(t0[0] == s[base] && t0[1] == s[base + 1] && t0[2] == s[base + 2]);
    assert(rgb_at(s, base) == r@[0]);
    assert(t0[3] == s[base + 3] && t0[4] == s[base + 4] && t0[5] == s[base + 5]);
    assert(rgb_at(s, base + 3) == r@[1]);
    assert(t0[6] == s[base + 6] && t0[7] == s[base + 7] && t0[8] == s[base + 8]);
    assert(rgb_at(s, base + 6) == r@[2]);
    assert(t0[9] == s[base + 9] && t0[10] == s[base + 10] && t0[11] == s[base + 11]);
    assert(rgb_at(s, base + 9) == r@[3]);
    assert(t0[12] == s[base + 12] && t0[13] == s[base + 13] && t0[14] == s[base + 14]);
    assert(rgb_at(s, base + 12) == r@[4]);
    assert(t0[15] == s[base + 15] && t0[16] == s[base + 16] && t0[17] == s[base + 17]);
    assert(rgb_at(s, base + 15) == r@[5]);
    assert(t0[18] == s[base + 18] && t0[19] == s[base + 19] && t0[20] == s[base + 20]);
    assert(rgb_at(s, base + 18) == r@[6]);
    assert(t0[21] == s[base + 21] && t0[22] == s[base + 22] && t0[23] == s[base + 23]);
    assert(rgb_at(s, base + 21) == r@[7]);
    assert(grid_row_at(s, base)@ =~= r@);
    assert(grid_row_at(s, base) =~= r);
}

#[verifier::rlimit(100)]
#[verifier::spinoff_prover]
pub proof fn lemma_grid_cells_at_enc(g: [[RGB; 8]; 8], s: Seq<u8>, base: int)
    requires
        0 <= base,
        base + 192 <= s.len(),
        s.subrange(base, base + 192) == enc_grid_cells(g),
    ensures
        grid_cells_at(s, base) == g,
{
    broadcast use group_array_axioms;

    reveal(grid_cells_at);
    let e0 = enc_grid_row(g@[0]);
    let e1 = enc_grid_row(g@[1]);
    let e2 = enc_grid_row(g@[2]);
    let e3 = enc_grid_row(g@[3]);
    let e4 = enc_grid_row(g@[4]);
    let e5 = enc_grid_row(g@[5]);
    let e6 = enc_grid_row(g@[6]);
    let e7 = enc_grid_row(g@[7]);
    let t0 = s.subrange(base, base + 192);
    let x0 = e0 + (e1 + (e2 + (e3 + (e4 + (e5 + (e6 + e7))))));
    assert(t0 == x0);
    assert(forall|k: int| 0 <= k < 192 ==> t0[k] == s[base + k]);
    assert(s.subrange(base, base + 24) =~= e0);
    lemma_grid_row_at_enc(g@[0], s, base);
    let x1 = e1 + (e2 + (e3 + (e4 + (e5 + (e6 + e7)))));
    let t1 = s.subrange(base + 24, base + 192);
    assert(t1 =~= t0.skip(24));
    assert(x0.skip(24) =~= x1);
    assert(forall|k: int| 0 <= k < 168 ==> t1[k] == s[base + 24 + k]);
    assert(s.subrange(base + 24, base + 48) =~= e1);
    lemma_grid_row_at_enc(g@[1], s, base + 24);
    let x2 = e2 + (e3 + (e4 + (e5 + (e6 + e7))));
    let t2 = s.subrange(base + 48, base + 192);
    assert(t2 =~= t1.skip(24));
    assert(x1.skip(24) =~= x2);
    assert(forall|k: int| 0 <= k < 144 ==> t2[k] == s[base + 48 + k]);
    assert(s.subrange(base + 48, base + 72) =~= e2);
    lemma_grid_row_at_enc(g@[2], s, base + 48);
    let x3 = e3 + (e4 + (e5 + (e6 + e7)));
    let t3 = s.subrange(base + 72, base + 192);
    assert(t3 =~= t2.skip(24));
    assert(x2.skip(24) =~= x3);
    assert(forall|k: int| 0 <= k < 120 ==> t3[k] == s[base + 72 + k]);
    assert(s.subrange(base + 72, base + 96) =~= e3);
    lemma_grid_row_at_enc(g@[3], s, base + 72);
    let x4 = e4 + (e5 + (e6 + e7));
    let t4 = s.subrange(base + 96, base + 192);
    assert(t4 =~= t3.skip(24));
    assert(x3.skip(24) =~= x4);
    assert(forall|k: int| 0 <= k < 96 ==> t4[k] == s[base + 96 + k]);
    assert(s.subrange(base + 96, base + 120) =~= e4);
    lemma_grid_row_at_enc(g@[4], s, base + 96);
    let x5 = e5 + (e6 + e7);
    let t5 = s.subrange(base + 120, base + 192);
    assert(t5 =~= t4.skip(24));
    assert(x4.skip(24) =~= x5);
    assert(forall|k: int| 0 <= k < 72 ==> t5[k] == s[base + 120 + k]);
    assert(s.subrange(base + 120, base + 144) =~= e5);
    lemma_grid_row_at_enc(g@[5], s, base + 120);
    let x6 = e6 + e7;
    let t6 = s.subrange(base + 144, base + 192);
    assert(t6 =~= t5.skip(24));
    assert(x5.skip(24) =~= x6);
    assert(forall|k: int| 0 <= k < 48 ==> t6[k] == s[base + 144 + k]);
    assert(s.subrange(base + 144, base + 168) =~= e6);
    lemma_grid_row_at_enc(g@[6], s, base + 144);
    let t7 = s.subrange(base + 168, base + 192);
    assert(t7 =~= t6.skip(24));
    assert(x6.skip(24) =~= e7);
    assert(t7 =~= e7);
    lemma_grid_row_at_enc(g@[7], s, base + 168);
    assert(grid_cells_at(s, base)@ =~= g@);
    assert(grid_cells_at(s, base) =~= g);
}

/// A grid: origin row and column, then the 64 colors row by row.
pub open spec fn enc_grid(g: ApiGrid) -> Seq<u8> {
    enc_varint(g.zero_row as nat) + enc_varint(g.zero_column as nat) + enc_grid_cells(g.grid)
}

/// What a grid read yields.
pub open spec fn dec_grid(s: Seq<u8>) -> Option<(ApiGrid, int)> {
    match dec_varint(s, 10) {
        None => None,
        Some((zr, n1)) => if zr > usize::MAX {
            None
        } else {
            match dec_varint(s.skip(n1), 10) {
                None => None,
                Some((zc, n2)) => if zc > usize::MAX || s.len() < n1 + n2 + 192 {
                    None
                } else {
                    Some(
                        (
                            ApiGrid {
                                zero_row: zr as usize,
                                zero_column: zc as usize,
                                grid: grid_cells_at(s, n1 + n2),
                            },
                            n1 + n2 + 192,
                        ),
                    )
                },
            }
        },
    }
}

#[verifier::rlimit(100)]
#[verifier::spinoff_prover]
pub proof fn lemma_grid_roundtrip(g: ApiGrid, rest: Seq<u8>)
    ensures
        dec_grid(enc_grid(g) + rest) == Some((g, enc_grid(g).len() as int)),
{
    let e1 = enc_varint(g.zero_row as nat);
    let e2 = enc_varint(g.zero_column as nat);
    let e3 = enc_grid_cells(g.grid);
    let tail2 = e3 + rest;
    let s = enc_grid(g) + rest;
    lemma_enc_varint_len_u64(g.zero_row as u64);
    lemma_enc_varint_len_u64(g.zero_column as u64);
    assert(s =~= e1 + (e2 + tail2));
    lemma_dec_enc_varint(g.zero_row as nat, e2 + tail2, 10);
    assert(s.skip(e1.len() as int) =~= e2 + tail2);
    lemma_dec_enc_varint(g.zero_column as nat, tail2, 10);
    let p = e1.len() + e2.len();
    assert(s.skip(p as int) =~= (e2 + tail2).skip(e2.len() as int));
    assert((e2 + tail2).skip(e2.len() as int) =~= tail2);
    assert(s.subrange(p as int, p as int + 192) =~= tail2.take(192));
    assert(tail2.take(192) =~= e3);
    lemma_grid_cells_at_enc(g.grid, s, p as int);
}

/// Appends one color.
pub fn put_rgb(out: &mut Vec<u8>, p: RGB)
    ensures
        final(out)@ == old(out)@ + enc_rgb(p),
{
    out.push(p.red);
    out.push(p.green);
    out.push(p.blue);
    proof {
        assert(out@ =~= old(out)@ + enc_rgb(p));
    }
}

/// Appends a row of eight colors.
pub fn put_grid_row(out: &mut Vec<u8>, r: &[RGB; 8])
    ensures
        final(out)@ == old(out)@ + enc_grid_row(*r),
{
    proof {
        broadcast use group_array_axioms;

    }
    put_rgb(out, r[0]);
    put_rgb(out, r[1]);
    put_rgb(out, r[2]);
    put_rgb(out, r[3]);
    put_rgb(out, r[4]);
    put_rgb(out, r[5]);
    put_rgb(out, r[6]);
    put_rgb(out, r[7]);
    proof {
        assert(out@ =~= old(out)@ + enc_grid_row(*r));
    }
}

/// Appends a grid.
#[verifier::rlimit(100)]
#[verifier::spinoff_prover]
pub fn put_grid(out: &mut Vec<u8>, g: &ApiGrid)
    ensures
        final(out)@ == old(out)@ + enc_grid(*g),
{
    proof {
        broadcast use group_array_axioms;

    }
    put_varint(out, g.zero_row as u64);
    put_varint(out, g.zero_column as u64);
    put_grid_row(out, &g.grid[0]);
    put_grid_row(out, &g.grid[1]);
    put_grid_row(out, &g.grid[2]);
    put_grid_row(out, &g.grid[3]);
    put_grid_row(out, &g.grid[4]);
    put_grid_row(out, &g.grid[5]);
    put_grid_row(out, &g.grid[6]);
    put_grid_row(out, &g.grid[7]);
    proof {
        assert(out@ =~= old(out)@ + enc_grid(*g));
    }
}

/// Reads one color at absolute position `k`.
fn get_rgb(s: &[u8], k: usize) -> (r: RGB)
    requires
        k + 3 <= s@.len(),
    ensures
        r == rgb_at(s@, k as int),
{
    let slen = s.len();
    RGB { red: s[k], green: s[k + 1], blue: s[k + 2] }
}

/// Reads a row of eight colors at absolute position `base`.
fn get_grid_row(s: &[u8], base: usize) -> (r: [RGB; 8])
    requires
        base + 24 <= s@.len(),
    ensures
        r == grid_row_at(s@, base as int),
{
    proof {
        broadcast use group_array_axioms;

        reveal(grid_row_at);
    }
    let slen = s.len();
    let r = [
        get_rgb(s, base),
        get_rgb(s, base + 3),
        get_rgb(s, base + 6),
        get_rgb(s, base + 9),
        get_rgb(s, base + 12),
        get_rgb(s, base + 15),
        get_rgb(s, base + 18),
        get_rgb(s, base + 21),
    ];
    proof {
        broadcast use group_array_axioms;

        reveal(grid_row_at);
        assert(r@ =~= grid_row_at(s@, base as int)@);
        assert(r =~= grid_row_at(s@, base as int));
    }
    r
}

/// Reads a grid at `pos`.
#[verifier::rlimit(100)]
#[verifier::spinoff_prover]
pub fn get_grid(s: &[u8], pos: usize) -> (r: Option<(ApiGrid, usize)>)
    requires
        pos <= s@.len(),
    ensures
        match dec_grid(s@.skip(pos as int)) {
            None => r is None,
            Some((g, n)) => r matches Some((g2, p)) && g2 == g && p == pos + n,
        },
        r matches Some((_, p)) ==> pos < p <= s@.len(),
{
    let ghost t = s@.skip(pos as int);
    let (zr64, p1) = match get_varint(s, pos) {
        None => {
            proof {
                if dec_varint(t, 10) is Some {
                    let (v, n) = dec_varint(t, 10).unwrap();
                    assert(v > u64::MAX >= usize::MAX);
                }
            }
            return None;
        },
        Some(x) => x,
    };
    if zr64 > usize::MAX as u64 {
        return None;
    }
    proof {
        assert(s@.skip(p1 as int) =~= t.skip(dec_varint(t, 10).unwrap().1));
    }
    let (zc64, p2) = match get_varint(s, p1) {
        None => {
            proof {
                let n1 = dec_varint(t, 10).unwrap().1;
                if dec_varint(t.skip(n1), 10) is Some {
                    let (v, n) = dec_varint(t.skip(n1), 10).unwrap();
                    assert(v > u64::MAX >= usize::MAX);
                }
            }
            return None;
        },
        Some(x) => x,
    };
    if zc64 > usize::MAX as u64 {
        return None;
    }
    if s.len() - p2 < 192 {
        return None;
    }
    let grid = [
        get_grid_row(s, p2),
        get_grid_row(s, p2 + 24),
        get_grid_row(s, p2 + 48),
        get_grid_row(s, p2 + 72),
        get_grid_row(s, p2 + 96),
        get_grid_row(s, p2 + 120),
        get_grid_row(s, p2 + 144),
        get_grid_row(s, p2 + 168),
    ];
    let g = ApiGrid { zero_row: zr64 as usize, zero_column: zc64 as usize, grid };
    proof {
        broadcast use group_array_axioms;

        reveal(grid_row_at);
        reveal(grid_cells_at);
        let n1 = dec_varint(t, 10).unwrap().1;
        let n2 = dec_varint(t.skip(n1), 10).unwrap().1;
        let p = n1 + n2;
        assert(forall|k: int| 0 <= k < t.len() ==> t[k] == s@[pos + k]);
        assert forall|i: int| 0 <= i < 8 implies grid@[i] == grid_row_at(t, p + 24 * i) by {
            assert(grid_row_at(s@, pos + p + 24 * i)@ =~= grid_row_at(t, p + 24 * i)@);
            assert(grid_row_at(s@, pos + p + 24 * i) =~= grid_row_at(t, p + 24 * i));
            assert(grid@[i] == grid_row_at(s@, pos + p + 24 * i));
        }
        assert(grid@ =~= grid_cells_at(t, p)@);
        assert(grid =~= grid_cells_at(t, p));
    }
    Some((g, p2 + 192))
}

/// A grid command: source, destination, then the grid.
pub open spec fn enc_grid_command(c: GridCommand) -> Seq<u8> {
    le_bytes(c.source as nat, 2) + le_bytes(c.dest as nat, 2) + enc_grid(c.grid)
}

/// What a grid-command read yields.
pub open spec fn dec_grid_command(s: Seq<u8>) -> Option<(GridCommand, int)> {
    match dec_le(s, 2) {
        None => None,
        Some((src, n1)) => match dec_le(s.skip(n1), 2) {
            None => None,
            Some((dst, n2)) => match dec_grid(s.skip(n1 + n2)) {
                None => None,
                Some((grid, n3)) => Some(
                    (
                        GridCommand {
                            source: (src % 0x1_0000) as u16,
                            dest: (dst % 0x1_0000) as u16,
                            grid,
                        },
                        n1 + n2 + n3,
                    ),
                ),
            },
        },
    }
}

#[verifier::rlimit(100)]
#[verifier::spinoff_prover]
pub proof fn lemma_grid_command_roundtrip(c: GridCommand, rest: Seq<u8>)
    ensures
        dec_grid_command(enc_grid_command(c) + rest) == Some(
            (c, enc_grid_command(c).len() as int),
        ),
{
    let e1 = le_bytes(c.source as nat, 2);
    let e2 = le_bytes(c.dest as nat, 2);
    let e3 = enc_grid(c.grid);
    let s = enc_grid_command(c) + rest;
    assert((c.source as nat) < pow256(2) && (c.dest as nat) < pow256(2)) by {
        reveal_with_fuel(pow256, 3);
    }
    lemma_le_bytes_len(c.source as nat, 2);
    lemma_le_bytes_len(c.dest as nat, 2);
    let y = e3 + rest;
    let x = e2 + y;
    vstd::seq_lib::lemma_concat_associative(e1 + e2, e3, rest);
    vstd::seq_lib::lemma_concat_associative(e1, e2, y);
    assert(s == e1 + x);
    crate::wire::lemma_dec_le_enc(c.source as nat, 2, x);
    crate::wire::lemma_le_dec(c.source as nat, 2, x);
    assert(s.skip(2) == x);
    crate::wire::lemma_dec_le_enc(c.dest as nat, 2, y);
    crate::wire::lemma_le_dec(c.dest as nat, 2, y);
    assert(x.skip(2) == y);
    lemma_skip_skip(s, 2, 2);
    assert(s.skip(4) == y);
    lemma_grid_roundtrip(c.grid, rest);
}

/// Appends a grid command.
pub fn put_grid_command(out: &mut Vec<u8>, c: &GridCommand)
    ensures
        final(out)@ == old(out)@ + enc_grid_command(*c),
{
    put_u16(out, c.source);
    put_u16(out, c.dest);
    put_grid(out, &c.grid);
    proof {
        assert(out@ =~= old(out)@ + enc_grid_command(*c));
    }
}

/// Reads a grid command at `pos`.
pub fn get_grid_command(s: &[u8], pos: usize) -> (r: Option<(GridCommand, usize)>)
    requires
        pos <= s@.len(),
    ensures
        match dec_grid_command(s@.skip(pos as int)) {
            None => r is None,
            Some((c, n)) => r matches Some((c2, p)) && c2 == c && p == pos + n,
        },
        r matches Some((_, p)) ==> pos < p <= s@.len(),
{
    let ghost t = s@.skip(pos as int);
    let (src, p1) = match get_u16(s, pos) {
        None => {
            return None;
        },
        Some(x) => x,
    };
    proof {
        assert(s@.skip(p1 as int) =~= t.skip(2));
    }
    let (dst, p2) = match get_u16(s, p1) {
        None => {
            return None;
        },
        Some(x) => x,
    };
    proof {
        assert(s@.skip(p2 as int) =~= t.skip(4));
    }
    let (grid, p3) = match get_grid(s, p2) {
        None => {
            return None;
        },
        Some(x) => x,
    };
    Some((GridCommand { source: src, dest: dst, grid }, p3))
}

// ---------------------------------------------------------------------------
// Fixed arrays of sixteen 64-bit words
// ---------------------------------------------------------------------------

/// The words from index `i` on, each as eight little-endian bytes.
pub open spec fn enc_words_from(a: [u64; 16], i: int) -> Seq<u8>
    decreases 16 - i,
{
    if i < 0 || i >= 16 {
        Seq::empty()
    } else {
        le_bytes(a@[i] as nat, 8) + enc_words_from(a, i + 1)
    }
}

/// A word array: its sixteen words in order, 128 bytes.
pub open spec fn enc_words(a: [u64; 16]) -> Seq<u8> {
    enc_words_from(a, 0)
}

/// The word whose bytes sit at `base` .. `base + 8`.
pub open spec fn word_at(s: Seq<u8>, base: int) -> u64 {
    (le_val(s.subrange(base, base + 8)) % 0x1_0000_0000_0000_0000) as u64
}

/// The sixteen words starting at `base`.
#[verifier::opaque]
pub open spec fn words_at(s: Seq<u8>, base: int) -> [u64; 16] {
    [
        word_at(s, base),
        word_at(s, base + 8),
        word_at(s, base + 16),
        word_at(s, base + 24),
        word_at(s, base + 32),
        word_at(s, base + 40),
        word_at(s, base + 48),
        word_at(s, base + 56),
        word_at(s, base + 64),
        word_at(s, base + 72),
        word_at(s, base + 80),
        word_at(s, base + 88),
        word_at(s, base + 96),
        word_at(s, base + 104),
        word_at(s, base + 112),
        word_at(s, base + 120),
    ]
}

/// What a word-array read yields.
pub open spec fn dec_words(s: Seq<u8>) -> Option<([u64; 16], int)> {
    if s.len() < 128 {
        None
    } else {
        Some((words_at(s, 0), 128))
    }
}

pub proof fn lemma_enc_words_from_len(a: [u64; 16], i: int)
    requires
        0 <= i <= 16,
    ensures
        enc_words_from(a, i).len() == 8 * (16 - i),
    decreases 16 - i,
{
    if i < 16 {
        lemma_le_bytes_len(a@[i] as nat, 8);
        lemma_enc_words_from_len(a, i + 1);
    }
}

/// One peel step: the eight bytes at the front of a word-array suffix are
/// one word, and the rest is the remaining suffix.
proof fn lemma_words_peel(a: [u64; 16], s: Seq<u8>, base: int, i: int)
    requires
        0 <= base,
        0 <= i < 16,
        base + 8 * (16 - i) <= s.len(),
        s.subrange(base, base + 8 * (16 - i)) == enc_words_from(a, i),
    ensures
        word_at(s, base) == a@[i],
        i < 15 ==> s.subrange(base + 8, base + 8 + 8 * (16 - (i + 1))) == enc_words_from(
            a,
            i + 1,
        ),
{
    broadcast use group_array_axioms;

    let e = le_bytes(a@[i] as nat, 8);
    let t = s.subrange(base, base + 8 * (16 - i));
    lemma_le_bytes_len(a@[i] as nat, 8);
    lemma_enc_words_from_len(a, i + 1);
    assert(t == e + enc_words_from(a, i + 1));
    assert(s.subrange(base, base + 8) =~= e);
    assert((a@[i] as nat) < pow256(8)) by {
        reveal_with_fuel(pow256, 9);
    }
    crate::wire::lemma_le_roundtrip(a@[i] as nat, 8);
    assert(word_at(s, base) == a@[i]);
    if i < 15 {
        assert(s.subrange(base + 8, base + 8 + 8 * (16 - (i + 1))) =~= t.skip(8));
        assert(t.skip(8) =~= enc_words_from(a, i + 1));
    }
}

#[verifier::rlimit(100)]
#[verifier::spinoff_prover]
pub proof fn lemma_words_at_enc(a: [u64; 16], s: Seq<u8>, base: int)
    requires
        0 <= base,
        base + 128 <= s.len(),
        s.subrange(base, base + 128) == enc_words(a),
    ensures
        words_at(s, base) == a,
{
    broadcast use group_array_axioms;

    reveal(words_at);
    lemma_words_peel(a, s, base, 0);
    lemma_words_peel(a, s, base + 8, 1);
    lemma_words_peel(a, s, base + 16, 2);
    lemma_words_peel(a, s, base + 24, 3);
    lemma_words_peel(a, s, base + 32, 4);
    lemma_words_peel(a, s, base + 40, 5);
    lemma_words_peel(a, s, base + 48, 6);
    lemma_words_peel(a, s, base + 56, 7);
    lemma_words_peel(a, s, base + 64, 8);
    lemma_words_peel(a, s, base + 72, 9);
    lemma_words_peel(a, s, base + 80, 10);
    lemma_words_peel(a, s, base + 88, 11);
    lemma_words_peel(a, s, base + 96, 12);
    lemma_words_peel(a, s, base + 104, 13);
    lemma_words_peel(a, s, base + 112, 14);
    lemma_words_peel(a, s, base + 120, 15);
    assert(words_at(s, base)@ =~= a@);
    assert(words_at(s, base) =~= a);
}

pub proof fn lemma_words_roundtrip(a: [u64; 16], rest: Seq<u8>)
    ensures
        dec_words(enc_words(a) + rest) == Some((words_at(enc_words(a) + rest, 0), 128int)),
        words_at(enc_words(a) + rest, 0) == a,
        enc_words(a).len() == 128,
{
    lemma_enc_words_from_len(a, 0);
    let s = enc_words(a) + rest;
    assert(s.subrange(0, 128) =~= enc_words(a));
    lemma_words_at_enc(a, s, 0);
}

/// Appends a word array.
pub fn put_words(out: &mut Vec<u8>, a: &[u64; 16])
    ensures
        final(out)@ == old(out)@ + enc_words(*a),
{
    let mut i: usize = 0;
    while i < 16
        invariant
            0 <= i <= 16,
            out@ + enc_words_from(*a, i as int) == old(out)@ + enc_words(*a),
        decreases 16 - i,
    {
        proof {
            broadcast use group_array_axioms;

            assert(enc_words_from(*a, i as int) =~= le_bytes(a@[i as int] as nat, 8)
                + enc_words_from(*a, i as int + 1));
        }
        put_u64(out, a[i]);
        i = i + 1;
        proof {
            assert(out@ + enc_words_from(*a, i as int) =~= old(out)@ + enc_words(*a));
        }
    }
    proof {
        assert(out@ =~= out@ + enc_words_from(*a, 16));
    }
}

/// Reads a word array at `pos`.
#[verifier::rlimit(100)]
#[verifier::spinoff_prover]
pub fn get_words(s: &[u8], pos: usize) -> (r: Option<([u64; 16], usize)>)
    requires
        pos <= s@.len(),
    ensures
        match dec_words(s@.skip(pos as int)) {
            None => r is None,
            Some((a, n)) => r matches Some((a2, p)) && a2 == a && p == pos + n,
        },
        r matches Some((_, p)) ==> pos < p <= s@.len(),
{
    let slen = s.len();
    if slen - pos < 128 {
        return None;
    }
    let w0 = match get_u64(s, pos) { None => { return None; }, Some(x) => x.0 };
    let w1 = match get_u64(s, pos + 8) { None => { return None; }, Some(x) => x.0 };
    let w2 = match get_u64(s, pos + 16) { None => { return None; }, Some(x) => x.0 };
    let w3 = match get_u64(s, pos + 24) { None => { return None; }, Some(x) => x.0 };
    let w4 = match get_u64(s, pos + 32) { None => { return None; }, Some(x) => x.0 };
    let w5 = match get_u64(s, pos + 40) { None => { return None; }, Some(x) => x.0 };
    let w6 = match get_u64(s, pos + 48) { None => { return None; }, Some(x) => x.0 };
    let w7 = match get_u64(s, pos + 56) { None => { return None; }, Some(x) => x.0 };
    let w8 = match get_u64(s, pos + 64) { None => { return None; }, Some(x) => x.0 };
    let w9 = match get_u64(s, pos + 72) { None => { return None; }, Some(x) => x.0 };
    let w10 = match get_u64(s, pos + 80) { None => { return None; }, Some(x) => x.0 };
    let w11 = match get_u64(s, pos + 88) { None => { return None; }, Some(x) => x.0 };
    let w12 = match get_u64(s, pos + 96) { None => { return None; }, Some(x) => x.0 };
    let w13 = match get_u64(s, pos + 104) { None => { return None; }, Some(x) => x.0 };
    let w14 = match get_u64(s, pos + 112) { None => { return None; }, Some(x) => x.0 };
    let w15 = match get_u64(s, pos + 120) { None => { return None; }, Some(x) => x.0 };
    let a = [w0, w1, w2, w3, w4, w5, w6, w7, w8, w9, w10, w11, w12, w13, w14, w15];
    proof {
        broadcast use group_array_axioms;

        reveal(words_at);
        let t = s@.skip(pos as int);
        assert(s@.skip(pos + 0).take(8) =~= t.subrange(0int, 0int + 8));
        assert(s@.skip(pos + 8).take(8) =~= t.subrange(8int, 8int + 8));
        assert(s@.skip(pos + 16).take(8) =~= t.subrange(16int, 16int + 8));
        assert(s@.skip(pos + 24).take(8) =~= t.subrange(24int, 24int + 8));
        assert(s@.skip(pos + 32).take(8) =~= t.subrange(32int, 32int + 8));
        assert(s@.skip(pos + 40).take(8) =~= t.subrange(40int, 40int + 8));
        assert(s@.skip(pos + 48).take(8) =~= t.subrange(48int, 48int + 8));
        assert(s@.skip(pos + 56).take(8) =~= t.subrange(56int, 56int + 8));
        assert(s@.skip(pos + 64).take(8) =~= t.subrange(64int, 64int + 8));
        assert(s@.skip(pos + 72).take(8) =~= t.subrange(72int, 72int + 8));
        assert(s@.skip(pos + 80).take(8) =~= t.subrange(80int, 80int + 8));
        assert(s@.skip(pos + 88).take(8) =~= t.subrange(88int, 88int + 8));
        assert(s@.skip(pos + 96).take(8) =~= t.subrange(96int, 96int + 8));
        assert(s@.skip(pos + 104).take(8) =~= t.subrange(104int, 104int + 8));
        assert(s@.skip(pos + 112).take(8) =~= t.subrange(112int, 112int + 8));
        assert(s@.skip(pos + 120).take(8) =~= t.subrange(120int, 120int + 8));
        assert(a@ =~= words_at(t, 0)@);
        assert(a =~= words_at(t, 0));
    }
    Some((a, pos + 128))
}

// ---------------------------------------------------------------------------
// Radio messages
// ---------------------------------------------------------------------------

/// A radio message: its discriminant byte, then its payload.
pub open spec fn enc_radio(m: RadioMessages) -> Seq<u8> {
    match m {
        RadioMessages::SetCell(c) => seq![0u8] + enc_cell(c),
        RadioMessages::SetGrid(g) => seq![1u8] + enc_grid(g),
        RadioMessages::SetLine(l) => seq![2u8] + enc_line(l),
        RadioMessages::StartTurn(id) => seq![3u8] + le_bytes(id as nat, 2),
    }
}

/// What a radio-message read yields.  An unknown discriminant yields nothing.
pub open spec fn dec_radio(s: Seq<u8>) -> Option<(RadioMessages, int)> {
    if s.len() == 0 {
        None
    } else if s[0] == 0 {
        match dec_cell(s.skip(1)) {
            None => None,
            Some((c, n)) => Some((RadioMessages::SetCell(c), n + 1)),
        }
    } else if s[0] == 1 {
        match dec_grid(s.skip(1)) {
            None => None,
            Some((g, n)) => Some((RadioMessages::SetGrid(g), n + 1)),
        }
    } else if s[0] == 2 {
        match dec_line(s.skip(1)) {
            None => None,
            Some((l, n)) => Some((RadioMessages::SetLine(l), n + 1)),
        }
    } else if s[0] == 3 {
        match dec_le(s.skip(1), 2) {
            None => None,
            Some((v, n)) => Some((RadioMessages::StartTurn((v % 0x1_0000) as u16), n + 1)),
        }
    } else {
        None
    }
}

/// Round trip: a stream that starts with the encoding of a radio message
/// decodes to that message, consuming exactly the encoding.
#[verifier::rlimit(100)]
#[verifier::spinoff_prover]
pub proof fn lemma_radio_roundtrip(m: RadioMessages, rest: Seq<u8>)
    ensures
        dec_radio(enc_radio(m) + rest) == Some((m, enc_radio(m).len() as int)),
{
    let s = enc_radio(m) + rest;
    match m {
        RadioMessages::SetCell(c) => {
            vstd::seq_lib::lemma_concat_associative(seq![0u8], enc_cell(c), rest);
            lemma_head_skip(0u8, enc_cell(c) + rest);
            assert(s.skip(1) == enc_cell(c) + rest);
            lemma_cell_roundtrip(c, rest);
        },
        RadioMessages::SetGrid(g) => {
            vstd::seq_lib::lemma_concat_associative(seq![1u8], enc_grid(g), rest);
            lemma_head_skip(1u8, enc_grid(g) + rest);
            assert(s.skip(1) == enc_grid(g) + rest);
            lemma_grid_roundtrip(g, rest);
        },
        RadioMessages::SetLine(l) => {
            vstd::seq_lib::lemma_concat_associative(seq![2u8], enc_line(l), rest);
            lemma_head_skip(2u8, enc_line(l) + rest);
            assert(s.skip(1) == enc_line(l) + rest);
            lemma_line_roundtrip(l, rest);
        },
        RadioMessages::StartTurn(id) => {
            vstd::seq_lib::lemma_concat_associative(seq![3u8], le_bytes(id as nat, 2), rest);
            lemma_head_skip(3u8, le_bytes(id as nat, 2) + rest);
            assert(s.skip(1) == le_bytes(id as nat, 2) + rest);
            assert((id as nat) < pow256(2)) by {
                reveal_with_fuel(pow256, 3);
            }
            lemma_le_bytes_len(id as nat, 2);
            lemma_dec_le_enc(id as nat, 2, rest);
        },
    }
}

/// Writes the encoding of a radio message.
pub fn encode_radio_message(m: &RadioMessages) -> (r: Vec<u8>)
    ensures
        r@ == enc_radio(*m),
{
    let mut out: Vec<u8> = Vec::new();
    match m {
        RadioMessages::SetCell(c) => {
            out.push(0);
            put_cell(&mut out, c);
        },
        RadioMessages::SetGrid(g) => {
            out.push(1);
            put_grid(&mut out, g);
        },
        RadioMessages::SetLine(l) => {
            out.push(2);
            put_line(&mut out, l);
        },
        RadioMessages::StartTurn(id) => {
            out.push(3);
            put_u16(&mut out, *id);
        },
    }
    proof {
        assert(out@ =~= enc_radio(*m));
    }
    out
}

/// Reads one whole radio message: the decode must consume every byte.
pub fn decode_radio_message(s: &[u8]) -> (r: Option<RadioMessages>)
    ensures
        match dec_radio(s@) {
            None => r is None,
            Some((m, n)) => if n == s@.len() {
                r == Some(m)
            } else {
                r is None
            },
        },
{
    let slen = s.len();
    if slen == 0 {
        return None;
    }
    let d = s[0];
    proof {
        assert(s@.skip(1) =~= s@.skip(0).skip(1));
        assert(s@.skip(0) =~= s@);
    }
    if d == 0 {
        match get_cell(s, 1) {
            Some((c, p)) if p == slen => Some(RadioMessages::SetCell(c)),
            _ => None,
        }
    } else if d == 1 {
        match get_grid(s, 1) {
            Some((g, p)) if p == slen => Some(RadioMessages::SetGrid(g)),
            _ => None,
        }
    } else if d == 2 {
        match get_line(s, 1) {
            Some((l, p)) if p == slen => Some(RadioMessages::SetLine(l)),
            _ => None,
        }
    } else if d == 3 {
        match get_u16(s, 1) {
            Some((v, p)) if p == slen => Some(RadioMessages::StartTurn(v)),
            _ => None,
        }
    } else {
        None
    }
}

// ---------------------------------------------------------------------------
// Host-link messages
// ---------------------------------------------------------------------------

/// A host-link message: its discriminant byte, then its payload.
pub open spec fn enc_host(m: ModemUartMessages) -> Seq<u8> {
    match m {
        ModemUartMessages::SetCell(c) => seq![0u8] + enc_cell_command(c),
        ModemUartMessages::SetGrid(g) => seq![1u8] + enc_grid_command(g),
        ModemUartMessages::SetLine(l) => seq![2u8] + enc_line_command(l),
        ModemUartMessages::Loopback(v) => seq![3u8] + le_bytes(v as nat, 4),
        ModemUartMessages::AnnounceTurn(id) => seq![4u8] + le_bytes(id as nat, 2),
        ModemUartMessages::LoadLoopBack(a) => seq![5u8] + enc_words(a),
    }
}

/// What a host-link message read yields.
pub open spec fn dec_host(s: Seq<u8>) -> Option<(ModemUartMessages, int)> {
    if s.len() == 0 {
        None
    } else if s[0] == 0 {
        match dec_cell_command(s.skip(1)) {
            None => None,
            Some((c, n)) => Some((ModemUartMessages::SetCell(c), n + 1)),
        }
    } else if s[0] == 1 {
        match dec_grid_command(s.skip(1)) {
            None => None,
            Some((g, n)) => Some((ModemUartMessages::SetGrid(g), n + 1)),
        }
    } else if s[0] == 2 {
        match dec_line_command(s.skip(1)) {
            None => None,
            Some((l, n)) => Some((ModemUartMessages::SetLine(l), n + 1)),
        }
    } else if s[0] == 3 {
        match dec_le(s.skip(1), 4) {
            None => None,
            Some((v, n)) => Some((ModemUartMessages::Loopback((v % 0x1_0000_0000) as u32), n + 1)),
        }
    } else if s[0] == 4 {
        match dec_le(s.skip(1), 2) {
            None => None,
            Some((v, n)) => Some((ModemUartMessages::AnnounceTurn((v % 0x1_0000) as u16), n + 1)),
        }
    } else if s[0] == 5 {
        match dec_words(s.skip(1)) {
            None => None,
            Some((a, n)) => Some((ModemUartMessages::LoadLoopBack(a), n + 1)),
        }
    } else {
        None
    }
}

/// Round trip: a stream that starts with the encoding of a host-link
/// message decodes to that message, consuming exactly the encoding.
#[verifier::rlimit(100)]
#[verifier::spinoff_prover]
pub proof fn lemma_host_roundtrip(m: ModemUartMessages, rest: Seq<u8>)
    ensures
        dec_host(enc_host(m) + rest) == Some((m, enc_host(m).len() as int)),
{
    let s = enc_host(m) + rest;
    match m {
        ModemUartMessages::SetCell(c) => {
            vstd::seq_lib::lemma_concat_associative(seq![0u8], enc_cell_command(c), rest);
            lemma_head_skip(0u8, enc_cell_command(c) + rest);
            assert(s.skip(1) == enc_cell_command(c) + rest);
            lemma_cell_command_roundtrip(c, rest);
        },
        ModemUartMessages::SetGrid(g) => {
            vstd::seq_lib::lemma_concat_associative(seq![1u8], enc_grid_command(g), rest);
            lemma_head_skip(1u8, enc_grid_command(g) + rest);
            assert(s.skip(1) == enc_grid_command(g) + rest);
            lemma_grid_command_roundtrip(g, rest);
        },
        ModemUartMessages::SetLine(l) => {
            vstd::seq_lib::lemma_concat_associative(seq![2u8], enc_line_command(l), rest);
            lemma_head_skip(2u8, enc_line_command(l) + rest);
            assert(s.skip(1) == enc_line_command(l) + rest);
            lemma_line_command_roundtrip(l, rest);
        },
        ModemUartMessages::Loopback(v) => {
            vstd::seq_lib::lemma_concat_associative(seq![3u8], le_bytes(v as nat, 4), rest);
            lemma_head_skip(3u8, le_bytes(v as nat, 4) + rest);
            assert(s.skip(1) == le_bytes(v as nat, 4) + rest);
            assert((v as nat) < pow256(4)) by {
                reveal_with_fuel(pow256, 5);
            }
            lemma_le_bytes_len(v as nat, 4);
            lemma_dec_le_enc(v as nat, 4, rest);
        },
        ModemUartMessages::AnnounceTurn(id) => {
            vstd::seq_lib::lemma_concat_associative(seq![4u8], le_bytes(id as nat, 2), rest);
            lemma_head_skip(4u8, le_bytes(id as nat, 2) + rest);
            assert(s.skip(1) == le_bytes(id as nat, 2) + rest);
            assert((id as nat) < pow256(2)) by {
                reveal_with_fuel(pow256, 3);
            }
            lemma_le_bytes_len(id as nat, 2);
            lemma_dec_le_enc(id as nat, 2, rest);
        },
        ModemUartMessages::LoadLoopBack(a) => {
            vstd::seq_lib::lemma_concat_associative(seq![5u8], enc_words(a), rest);
            lemma_head_skip(5u8, enc_words(a) + rest);
            assert(s.skip(1) == enc_words(a) + rest);
            lemma_words_roundtrip(a, rest);
        },
    }
}

/// Writes the encoding of a host-link message.
pub fn encode_host_message(m: &ModemUartMessages) -> (r: Vec<u8>)
    ensures
        r@ == enc_host(*m),
{
    let mut out: Vec<u8> = Vec::new();
    match m {
        ModemUartMessages::SetCell(c) => {
            out.push(0);
            put_cell_command(&mut out, c);
        },
        ModemUartMessages::SetGrid(g) => {
            out.push(1);
            put_grid_command(&mut out, g);
        },
        ModemUartMessages::SetLine(l) => {
            out.push(2);
            put_line_command(&mut out, l);
        },
        ModemUartMessages::Loopback(v) => {
            out.push(3);
            crate::wire::put_u32(&mut out, *v);
        },
        ModemUartMessages::AnnounceTurn(id) => {
            out.push(4);
            put_u16(&mut out, *id);
        },
        ModemUartMessages::LoadLoopBack(a) => {
            out.push(5);
            put_words(&mut out, a);
        },
    }
    proof {
        assert(out@ =~= enc_host(*m));
    }
    out
}

/// Reads one whole host-link message: the decode must consume every byte.
pub fn decode_host_message(s: &[u8]) -> (r: Option<ModemUartMessages>)
    ensures
        match dec_host(s@) {
            None => r is None,
            Some((m, n)) => if n == s@.len() {
                r == Some(m)
            } else {
                r is None
            },
        },
{
    let slen = s.len();
    if slen == 0 {
        return None;
    }
    let d = s[0];
    proof {
        assert(s@.skip(1) =~= s@.skip(0).skip(1));
        assert(s@.skip(0) =~= s@);
    }
    if d == 0 {
        match get_cell_command(s, 1) {
            Some((c, p)) if p == slen => Some(ModemUartMessages::SetCell(c)),
            _ => None,
        }
    } else if d == 1 {
        match get_grid_command(s, 1) {
            Some((g, p)) if p == slen => Some(ModemUartMessages::SetGrid(g)),
            _ => None,
        }
    } else if d == 2 {
        match get_line_command(s, 1) {
            Some((l, p)) if p == slen => Some(ModemUartMessages::SetLine(l)),
            _ => None,
        }
    } else if d == 3 {
        match crate::wire::get_u32(s, 1) {
            Some((v, p)) if p == slen => Some(ModemUartMessages::Loopback(v)),
            _ => None,
        }
    } else if d == 4 {
        match get_u16(s, 1) {
            Some((v, p)) if p == slen => Some(ModemUartMessages::AnnounceTurn(v)),
            _ => None,
        }
    } else if d == 5 {
        match get_words(s, 1) {
            Some((a, p)) if p == slen => Some(ModemUartMessages::LoadLoopBack(a)),
            _ => None,
        }
    } else {
        None
    }
}

// ---------------------------------------------------------------------------
// Host envelopes
// ---------------------------------------------------------------------------

/// An envelope: its discriminant byte, then a byte string or a message.
pub open spec fn enc_envelope(e: HostEnvelopeView) -> Seq<u8> {
    match e {
        HostEnvelopeView::Log(b) => seq![0u8] + enc_bytes(b),
        HostEnvelopeView::Warn(b) => seq![1u8] + enc_bytes(b),
        HostEnvelopeView::Error(b) => seq![2u8] + enc_bytes(b),
        HostEnvelopeView::BinaryRaw(b) => seq![3u8] + enc_bytes(b),
        HostEnvelopeView::ProtocolMessage(m) => seq![4u8] + enc_host(m),
    }
}

/// What an envelope read yields.
pub open spec fn dec_envelope(s: Seq<u8>) -> Option<(HostEnvelopeView, int)> {
    if s.len() == 0 {
        None
    } else if s[0] == 0 {
        match dec_bytes(s.skip(1)) {
            None => None,
            Some((b, n)) => Some((HostEnvelopeView::Log(b), n + 1)),
        }
    } else if s[0] == 1 {
        match dec_bytes(s.skip(1)) {
            None => None,
            Some((b, n)) => Some((HostEnvelopeView::Warn(b), n + 1)),
        }
    } else if s[0] == 2 {
        match dec_bytes(s.skip(1)) {
            None => None,
            Some((b, n)) => Some((HostEnvelopeView::Error(b), n + 1)),
        }
    } else if s[0] == 3 {
        match dec_bytes(s.skip(1)) {
            None => None,
            Some((b, n)) => Some((HostEnvelopeView::BinaryRaw(b), n + 1)),
        }
    } else if s[0] == 4 {
        match dec_host(s.skip(1)) {
            None => None,
            Some((m, n)) => Some((HostEnvelopeView::ProtocolMessage(m), n + 1)),
        }
    } else {
        None
    }
}

/// Round trip: a stream that starts with the encoding of an envelope
/// decodes to that envelope, consuming exactly the encoding.
#[verifier::rlimit(100)]
#[verifier::spinoff_prover]
pub proof fn lemma_envelope_roundtrip(e: HostEnvelopeView, rest: Seq<u8>)
    requires
        e matches HostEnvelopeView::Log(b) ==> b.len() <= usize::MAX,
        e matches HostEnvelopeView::Warn(b) ==> b.len() <= usize::MAX,
        e matches HostEnvelopeView::Error(b) ==> b.len() <= usize::MAX,
        e matches HostEnvelopeView::BinaryRaw(b) ==> b.len() <= usize::MAX,
    ensures
        dec_envelope(enc_envelope(e) + rest) == Some((e, enc_envelope(e).len() as int)),
{
    let s = enc_envelope(e) + rest;
    match e {
        HostEnvelopeView::Log(b) => {
            vstd::seq_lib::lemma_concat_associative(seq![0u8], enc_bytes(b), rest);
            lemma_head_skip(0u8, enc_bytes(b) + rest);
            assert(s.skip(1) == enc_bytes(b) + rest);
            lemma_bytes_roundtrip(b, rest);
        },
        HostEnvelopeView::Warn(b) => {
            vstd::seq_lib::lemma_concat_associative(seq![1u8], enc_bytes(b), rest);
            lemma_head_skip(1u8, enc_bytes(b) + rest);
            assert(s.skip(1) == enc_bytes(b) + rest);
            lemma_bytes_roundtrip(b, rest);
        },
        HostEnvelopeView::Error(b) => {
            vstd::seq_lib::lemma_concat_associative(seq![2u8], enc_bytes(b), rest);
            lemma_head_skip(2u8, enc_bytes(b) + rest);
            assert(s.skip(1) == enc_bytes(b) + rest);
            lemma_bytes_roundtrip(b, rest);
        },
        HostEnvelopeView::BinaryRaw(b) => {
            vstd::seq_lib::lemma_concat_associative(seq![3u8], enc_bytes(b), rest);
            lemma_head_skip(3u8, enc_bytes(b) + rest);
            assert(s.skip(1) == enc_bytes(b) + rest);
            lemma_bytes_roundtrip(b, rest);
        },
        HostEnvelopeView::ProtocolMessage(m) => {
            vstd::seq_lib::lemma_concat_associative(seq![4u8], enc_host(m), rest);
            lemma_head_skip(4u8, enc_host(m) + rest);
            assert(s.skip(1) == enc_host(m) + rest);
            lemma_host_roundtrip(m, rest);
        },
    }
}

/// Writes the encoding of an envelope.
pub fn encode_envelope(e: &HostEnvelope) -> (r: Vec<u8>)
    ensures
        r@ == enc_envelope(e@),
{
    let mut out: Vec<u8> = Vec::new();
    match e {
        HostEnvelope::Log(b) => {
            out.push(0);
            put_bytes(&mut out, b);
        },
        HostEnvelope::Warn(b) => {
            out.push(1);
            put_bytes(&mut out, b);
        },
        HostEnvelope::Error(b) => {
            out.push(2);
            put_bytes(&mut out, b);
        },
        HostEnvelope::BinaryRaw(b) => {
            out.push(3);
            put_bytes(&mut out, b);
        },
        HostEnvelope::ProtocolMessage(m) => {
            out.push(4);
            let enc = encode_host_message(m);
            let mut i: usize = 0;
            while i < enc.len()
                invariant
                    0 <= i <= enc@.len(),
                    out@ == seq![4u8] + enc@.take(i as int),
                decreases enc@.len() - i,
            {
                out.push(enc[i]);
                i = i + 1;
                proof {
                    assert(out@ =~= seq![4u8] + enc@.take(i as int));
                }
            }
            proof {
                assert(enc@.take(enc@.len() as int) =~= enc@);
            }
        },
    }
    proof {
        assert(out@ =~= enc_envelope(e@));
    }
    out
}

/// Reads one whole envelope: the decode must consume every byte.
pub fn decode_envelope(s: &[u8]) -> (r: Option<HostEnvelope>)
    ensures
        match dec_envelope(s@) {
            None => r is None,
            Some((e, n)) => if n == s@.len() {
                r matches Some(env) && env@ == e
            } else {
                r is None
            },
        },
{
    let slen = s.len();
    if slen == 0 {
        return None;
    }
    let d = s[0];
    proof {
        assert(s@.skip(1) =~= s@.skip(0).skip(1));
        assert(s@.skip(0) =~= s@);
    }
    if d <= 3 {
        match get_bytes(s, 1) {
            Some((b, p)) if p == slen => {
                if d == 0 {
                    Some(HostEnvelope::Log(b))
                } else if d == 1 {
                    Some(HostEnvelope::Warn(b))
                } else if d == 2 {
                    Some(HostEnvelope::Error(b))
                } else {
                    Some(HostEnvelope::BinaryRaw(b))
                }
            },
            _ => None,
        }
    } else if d == 4 {
        let tail = vstd::slice::slice_subrange(s, 1, slen);
        proof {
            assert(tail@ =~= s@.skip(1));
        }
        match decode_host_message(tail) {
            Some(m) => {
                proof {
                    let (m0, n0) = dec_host(s@.skip(1)).unwrap();
                }
                Some(HostEnvelope::ProtocolMessage(m))
            },
            None => None,
        }
    } else {
        None
    }
}

} // verus!
