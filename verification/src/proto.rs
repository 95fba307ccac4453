//! Message schema shared by the radio clients, the modem node and the host
//! relay: the payloads that travel over the air and over the serial link.

use vstd::prelude::*;

verus! {

/// An RGB color triple, one byte per channel.
#[derive(Clone, Copy, PartialEq, Eq, Debug)]
pub struct RGB {
    pub red: u8,
    pub green: u8,
    pub blue: u8,
}

/// One pixel paint: a 1-indexed position in the sender's view plus a color.
#[derive(Clone, Copy, PartialEq, Eq, Debug)]
pub struct Cell {
    pub row: usize,
    pub column: usize,
    pub red: u8,
    pub green: u8,
    pub blue: u8,
}

/// A straight run of pixels starting at a 1-indexed position.
/// `direction` encodes a compass direction and `length` the run length.
#[derive(Clone, Copy, PartialEq, Eq, Debug)]
pub struct Line {
    pub row: usize,
    pub column: usize,
    pub red: u8,
    pub green: u8,
    pub blue: u8,
    pub direction: i32,
    pub length: i32,
}

/// An 8x8 stamp of colors whose origin is placed at a 1-indexed position
/// in the sender's view.
#[derive(Clone, Copy, PartialEq, Eq, Debug)]
pub struct ApiGrid {
    pub zero_row: usize,
    pub zero_column: usize,
    pub grid: [[RGB; 8]; 8],
}

/// A `Cell` stamped by the modem with the radio frame's short addresses.
#[derive(Clone, Copy, PartialEq, Eq, Debug)]
pub struct CellCommand {
    pub source: u16,
    pub dest: u16,
    pub cell: Cell,
}

/// An `ApiGrid` stamped by the modem with the radio frame's short addresses.
#[derive(Clone, Copy, PartialEq, Eq, Debug)]
pub struct GridCommand {
    pub source: u16,
    pub dest: u16,
    pub grid: ApiGrid,
}

/// A `Line` stamped by the modem with the radio frame's short addresses.
#[derive(Clone, Copy, PartialEq, Eq, Debug)]
pub struct LineCommand {
    pub source: u16,
    pub dest: u16,
    pub line: Line,
}

/// The tagged union carried in a radio frame's payload.  The first three
/// variants travel client to modem; `StartTurn` travels modem to clients.
#[derive(Clone, Copy, PartialEq, Eq, Debug)]
pub enum RadioMessages {
    SetCell(Cell),
    SetGrid(ApiGrid),
    SetLine(Line),
    StartTurn(u16),
}

/// The tagged union exchanged between the modem and the host.  The paint
/// commands travel modem to host; `Loopback`, `AnnounceTurn` and
/// `LoadLoopBack` travel host to modem.
#[derive(Clone, Copy, PartialEq, Eq, Debug)]
pub enum ModemUartMessages {
    SetCell(CellCommand),
    SetGrid(GridCommand),
    SetLine(LineCommand),
    Loopback(u32),
    AnnounceTurn(u16),
    LoadLoopBack([u64; 16]),
}

/// One unit on the host link: either a diagnostic (its text held as raw
/// bytes), a binary dump, or a protocol message.
#[derive(Clone, PartialEq, Eq, Debug)]
pub enum HostEnvelope {
    Log(Vec<u8>),
    Warn(Vec<u8>),
    Error(Vec<u8>),
    BinaryRaw(Vec<u8>),
    ProtocolMessage(ModemUartMessages),
}

/// The mathematical shape of a `HostEnvelope`: the same five variants with
/// the byte payloads abstracted to sequences.  Contracts about envelopes
/// speak of this view.
pub enum HostEnvelopeView {
    Log(Seq<u8>),
    Warn(Seq<u8>),
    Error(Seq<u8>),
    BinaryRaw(Seq<u8>),
    ProtocolMessage(ModemUartMessages),
}

impl View for HostEnvelope {
    type V = HostEnvelopeView;

    open spec fn view(&self) -> HostEnvelopeView {
        match self {
            HostEnvelope::Log(b) => HostEnvelopeView::Log(b@),
            HostEnvelope::Warn(b) => HostEnvelopeView::Warn(b@),
            HostEnvelope::Error(b) => HostEnvelopeView::Error(b@),
            HostEnvelope::BinaryRaw(b) => HostEnvelopeView::BinaryRaw(b@),
            HostEnvelope::ProtocolMessage(m) => HostEnvelopeView::ProtocolMessage(*m),
        }
    }
}

} // verus!
