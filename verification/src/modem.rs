//! The modem node's decisions: validation of inbound radio frames, handling
//! of host-origin commands, and the idle-warning counter.
//!
//! The modem is the fixed node at (`MODEM_PAN`, `MODEM_ADDR`).  It accepts
//! only unicast frames addressed to itself whose source is a short,
//! non-broadcast address on the same network, and turns their payloads into
//! host-bound commands stamped with the frame's short addresses.  Radio and
//! serial transport stay outside; these functions take and return plain
//! values.

use vstd::prelude::*;
use crate::codec::{dec_radio, decode_radio_message, enc_radio, encode_radio_message};
use crate::proto::{CellCommand, GridCommand, LineCommand, ModemUartMessages, RadioMessages};

verus! {

/// The network every node in this exercise shares.
pub const MODEM_PAN: u16 = 0x0386;

/// The modem's own short address.
pub const MODEM_ADDR: u16 = 0x0808;

/// The reserved value meaning "all networks" or "all nodes".
pub const BROADCAST: u16 = 0xFFFF;

/// The largest radio payload the modem sends, in bytes.
pub const MAX_RADIO_PAYLOAD: usize = 32;

/// Consecutive receive timeouts before the modem emits an idle warning.
pub const IDLE_STEPDOWN: u32 = 10;

/// A radio address: a 16-bit network id with a short or an extended
/// node id.
#[derive(Clone, Copy, PartialEq, Eq, Structural, Debug)]
pub enum Address {
    Short { pan: u16, addr: u16 },
    Extended { pan: u16, addr: u64 },
}

/// An inbound radio frame as the modem sees it: the addresses from its
/// header and its payload bytes.
#[derive(Clone, PartialEq, Eq, Debug)]
pub struct RadioFrame {
    pub source: Address,
    pub destination: Address,
    pub payload: Vec<u8>,
}

/// Why an inbound frame was dropped, one variant per validation rule.
#[derive(Clone, Copy, PartialEq, Eq, Structural, Debug)]
pub enum ModemError {
    /// The source address is not short-form.
    BadSourceAddress,
    /// The destination address is not short-form.
    BadDestAddress,
    /// The source network id is the broadcast value.
    BroadcastSourcePan,
    /// The source node id is the broadcast value.
    BroadcastSourceAddr,
    /// The destination network differs from the source network.
    PanMismatch,
    /// The frame is not addressed to the modem.
    WrongDestination,
    /// The payload is not one whole radio message.
    DecodeFailed,
    /// A client tried to announce a turn.
    UnexpectedStartTurn,
}

/// What the modem does with an inbound frame: every validation rule in
/// order, then the payload decode, then the stamping of the command.
pub open spec fn process_spec(src: Address, dst: Address, payload: Seq<u8>) -> Result<
    ModemUartMessages,
    ModemError,
> {
    match src {
        Address::Extended { .. } => Err(ModemError::BadSourceAddress),
        Address::Short { pan: sp, addr: sa } => match dst {
            Address::Extended { .. } => Err(ModemError::BadDestAddress),
            Address::Short { pan: dp, addr: da } => {
                if sp == BROADCAST {
                    Err(ModemError::BroadcastSourcePan)
                } else if sa == BROADCAST {
                    Err(ModemError::BroadcastSourceAddr)
                } else if dp != sp {
                    Err(ModemError::PanMismatch)
                } else if !(dp == MODEM_PAN && da == MODEM_ADDR) {
                    Err(ModemError::WrongDestination)
                } else {
                    match dec_radio(payload) {
                        None => Err(ModemError::DecodeFailed),
                        Some((m, n)) => if n != payload.len() {
                            Err(ModemError::DecodeFailed)
                        } else {
                            match m {
                                RadioMessages::SetCell(c) => Ok(
                                    ModemUartMessages::SetCell(
                                        CellCommand { source: sa, dest: da, cell: c },
                                    ),
                                ),
                                RadioMessages::SetGrid(g) => Ok(
                                    ModemUartMessages::SetGrid(
                                        GridCommand { source: sa, dest: da, grid: g },
                                    ),
                                ),
                                RadioMessages::SetLine(l) => Ok(
                                    ModemUartMessages::SetLine(
                                        LineCommand { source: sa, dest: da, line: l },
                                    ),
                                ),
                                RadioMessages::StartTurn(_) => Err(
                                    ModemError::UnexpectedStartTurn,
                                ),
                            }
                        },
                    }
                }
            },
        },
    }
}

/// Validates an inbound radio frame and turns it into the host-bound
/// command it carries.  Exactly the frames that pass every rule yield a
/// command; every other frame yields the first rule it breaks.
pub fn process_message(frame: &RadioFrame) -> (r: Result<ModemUartMessages, ModemError>)
    ensures
        r == process_spec(frame.source, frame.destination, frame.payload@),
        r is Ok ==> frame.destination == (Address::Short { pan: MODEM_PAN, addr: MODEM_ADDR }),
{
    let (sp, sa) = match frame.source {
        Address::Short { pan, addr } => (pan, addr),
        Address::Extended { .. } => {
            return Err(ModemError::BadSourceAddress);
        },
    };
    let (dp, da) = match frame.destination {
        Address::Short { pan, addr } => (pan, addr),
        Address::Extended { .. } => {
            return Err(ModemError::BadDestAddress);
        },
    };
    if sp == BROADCAST {
        return Err(ModemError::BroadcastSourcePan);
    }
    if sa == BROADCAST {
        return Err(ModemError::BroadcastSourceAddr);
    }
    if dp != sp {
        return Err(ModemError::PanMismatch);
    }
    if !(dp == MODEM_PAN && da == MODEM_ADDR) {
        return Err(ModemError::WrongDestination);
    }
    match decode_radio_message(frame.payload.as_slice()) {
        None => Err(ModemError::DecodeFailed),
        Some(m) => match m {
            RadioMessages::SetCell(c) => Ok(
                ModemUartMessages::SetCell(CellCommand { source: sa, dest: da, cell: c }),
            ),
            RadioMessages::SetGrid(g) => Ok(
                ModemUartMessages::SetGrid(GridCommand { source: sa, dest: da, grid: g }),
            ),
            RadioMessages::SetLine(l) => Ok(
                ModemUartMessages::SetLine(LineCommand { source: sa, dest: da, line: l }),
            ),
            RadioMessages::StartTurn(_) => Err(ModemError::UnexpectedStartTurn),
        },
    }
}

/// What the modem does with a host-origin command.
pub enum HostAction {
    /// Echo the message back to the host as a data envelope.
    EchoData(ModemUartMessages),
    /// Broadcast the payload on the radio to the given address and wait
    /// for the send to finish.
    Broadcast { pan: u16, addr: u16, payload: Vec<u8> },
    /// The host sent something the modem never expects; report it.
    Reject,
}

/// Decides the modem's reaction to a host-origin command: diagnostics are
/// echoed, a turn announcement becomes a radio broadcast of `StartTurn` to
/// every node on the network, and anything else is rejected.
pub fn handle_host_command(msg: &ModemUartMessages) -> (r: HostAction)
    ensures
        msg matches ModemUartMessages::Loopback(_) ==> r == HostAction::EchoData(*msg),
        msg matches ModemUartMessages::LoadLoopBack(_) ==> r == HostAction::EchoData(*msg),
        msg matches ModemUartMessages::AnnounceTurn(id) ==> (r matches HostAction::Broadcast {
            pan,
            addr,
            payload,
        } && pan == MODEM_PAN && addr == BROADCAST && payload@ == enc_radio(
            RadioMessages::StartTurn(*id),
        ) && payload@.len() <= MAX_RADIO_PAYLOAD),
        (msg matches ModemUartMessages::SetCell(_) || msg matches ModemUartMessages::SetGrid(_)
            || msg matches ModemUartMessages::SetLine(_)) ==> r == HostAction::Reject,
{
    match msg {
        ModemUartMessages::Loopback(_) => HostAction::EchoData(*msg),
        ModemUartMessages::LoadLoopBack(_) => HostAction::EchoData(*msg),
        ModemUartMessages::AnnounceTurn(id) => {
            let payload = encode_radio_message(&RadioMessages::StartTurn(*id));
            proof {
                crate::wire::lemma_le_bytes_len(*id as nat, 2);
            }
            HostAction::Broadcast { pan: MODEM_PAN, addr: BROADCAST, payload }
        },
        _ => HostAction::Reject,
    }
}

/// The modem's idle counter: after [`IDLE_STEPDOWN`] consecutive receive
/// timeouts it asks for a warning with the link statistics and starts
/// over.
pub struct IdleTracker {
    pub count: u32,
}

impl IdleTracker {
    /// The counter never reaches the warning threshold between calls.
    pub open spec fn wf(&self) -> bool {
        self.count < IDLE_STEPDOWN
    }

    /// A fresh counter.
    pub fn new() -> (r: IdleTracker)
        ensures
            r.wf(),
            r.count == 0,
    {
        IdleTracker { count: 0 }
    }

    /// One receive window passed with nothing heard.  True exactly when
    /// this timeout is the [`IDLE_STEPDOWN`]th in a row, upon which the
    /// count starts over.
    pub fn on_timeout(&mut self) -> (warn: bool)
        requires
            old(self).wf(),
        ensures
            final(self).wf(),
            warn == (old(self).count + 1 == IDLE_STEPDOWN),
            warn ==> final(self).count == 0,
            !warn ==> final(self).count == old(self).count + 1,
    {
        self.count = self.count + 1;
        if self.count >= IDLE_STEPDOWN {
            self.count = 0;
            true
        } else {
            false
        }
    }

    /// A frame arrived: the idle run is broken.
    pub fn on_frame(&mut self)
        ensures
            final(self).wf(),
            final(self).count == 0,
    {
        self.count = 0;
    }
}

/// The jittered client send interval: `delay_us` plus or minus at most
/// `jitter_us`, driven by a raw random draw.  At the nominal eight
/// messages per second with ten percent jitter this keeps a client inside
/// the display's aggregate rate cap.
pub fn jittered_delay(delay_us: u32, jitter_us: u32, draw: u32) -> (r: u32)
    requires
        0 < jitter_us <= delay_us,
        delay_us + jitter_us <= u32::MAX,
    ensures
        r == delay_us - jitter_us + (draw as int) % (2 * jitter_us as int),
        delay_us - jitter_us <= r < delay_us + jitter_us,
{
    (delay_us - jitter_us) + (draw % (2 * jitter_us))
}

/// The nominal client send rate, messages per second.
pub const MSGS_PER_SEC: u32 = 8;

/// The nominal interval between client sends, microseconds.
pub const NOMINAL_INTERVAL_US: u32 = 1_000_000 / MSGS_PER_SEC;

/// The jitter applied around the nominal interval, microseconds.
pub const JITTER_US: u32 = NOMINAL_INTERVAL_US / 10;

/// A frame the modem accepts always yields the command of its payload
/// stamped with the frame's own short source address: the host never sees
/// a paint under another sender's name.
pub proof fn lemma_accepted_frame_stamps_source(src: Address, dst: Address, payload: Seq<u8>)
    ensures
        process_spec(src, dst, payload) matches Ok(m) ==> (src matches Address::Short {
            pan: _,
            addr: sa,
        } && match m {
            ModemUartMessages::SetCell(cc) => cc.source == sa,
            ModemUartMessages::SetGrid(gc) => gc.source == sa,
            ModemUartMessages::SetLine(lc) => lc.source == sa,
            _ => false,
        }),
{
}

} // verus!
