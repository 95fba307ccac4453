//! End-to-end runs of the command pipeline: a client's radio bytes through
//! the modem's validation, over the framed host link, into the board
//! manager, down to the display request.

use std::collections::HashMap;
use drawlink::board::{
    find_endpoint_type, DrawSession, PaintRequest, Segment, Span, TurnEngine, TurnOutcome,
};
use drawlink::codec::{decode_radio_message, encode_radio_message};
use drawlink::frame::frame_envelope;
use drawlink::ingest::FrameAccumulator;
use drawlink::modem::{
    handle_host_command, process_message, Address, HostAction, RadioFrame, MODEM_ADDR, MODEM_PAN,
};
use drawlink::proto::{Cell, HostEnvelope, ModemUartMessages, RadioMessages};

fn board32() -> Segment {
    Segment { x: Span { start: 1, end: 32 }, y: Span { start: 1, end: 32 } }
}

fn client_paint(source: u16, column: usize, row: usize) -> ModemUartMessages {
    // A client encodes a cell paint, the radio carries it to the modem,
    // and the modem validates it and stamps the client's short address.
    let over_the_air = encode_radio_message(&RadioMessages::SetCell(Cell {
        row,
        column,
        red: 200,
        green: 0,
        blue: 0,
    }));
    let frame = RadioFrame {
        source: Address::Short { pan: MODEM_PAN, addr: source },
        destination: Address::Short { pan: MODEM_PAN, addr: MODEM_ADDR },
        payload: over_the_air,
    };
    process_message(&frame).unwrap()
}

/// The stamped command travels the serial link as a framed envelope and
/// comes out of the host's incremental decoder unchanged.
fn over_serial(msg: ModemUartMessages) -> ModemUartMessages {
    let framed = frame_envelope(&HostEnvelope::ProtocolMessage(msg)).unwrap();
    let mut acc = FrameAccumulator::new();
    let envelopes = acc.push_bytes(&framed);
    assert_eq!(envelopes.len(), 1);
    match envelopes.into_iter().next().unwrap() {
        HostEnvelope::ProtocolMessage(m) => m,
        other => panic!("expected a protocol message, got {:?}", other),
    }
}

#[test]
fn freedraw_cell_reaches_the_display_unmoved() {
    let cmd = over_serial(client_paint(0x0003, 1, 1));
    assert_eq!(find_endpoint_type(&cmd), "cell");
    let session = DrawSession::new(board32(), None);
    match session.handle_message(&cmd) {
        Some(PaintRequest::Cell(c)) => {
            assert_eq!(c, Cell { row: 1, column: 1, red: 200, green: 0, blue: 0 });
        }
        other => panic!("expected a cell paint, got {:?}", other),
    }
}

#[test]
fn partitioned_cell_lands_in_the_senders_corner() {
    let cmd = over_serial(client_paint(0x0003, 1, 1));
    let mut parts = HashMap::new();
    parts.insert(3u16, Segment { x: Span { start: 25, end: 32 }, y: Span { start: 25, end: 32 } });
    let session = DrawSession::new(board32(), Some(parts));
    match session.handle_message(&cmd) {
        Some(PaintRequest::Cell(c)) => {
            assert_eq!(c, Cell { row: 25, column: 25, red: 200, green: 0, blue: 0 });
        }
        other => panic!("expected a cell paint, got {:?}", other),
    }
}

#[test]
fn partitioned_cell_past_the_partition_is_dropped() {
    // Row 9 in an 8-row partition: no display request at all.
    let cmd = over_serial(client_paint(0x0003, 1, 9));
    let mut parts = HashMap::new();
    parts.insert(3u16, Segment { x: Span { start: 25, end: 32 }, y: Span { start: 25, end: 32 } });
    let session = DrawSession::new(board32(), Some(parts));
    assert_eq!(session.handle_message(&cmd), None);
}

#[test]
fn paint_out_of_turn_is_dropped() {
    // Active player 3; a paint from source 7 yields no display request.
    let cmd = over_serial(client_paint(0x0007, 1, 1));
    let mut engine = TurnEngine::new(vec![3, 7], board32());
    assert_eq!(engine.handle_message(&cmd), TurnOutcome::OutOfTurn(7));
}

#[test]
fn boot_announces_the_first_player() {
    // The engine asks the host link to announce player 3; the modem turns
    // that into a radio broadcast whose payload a client decodes back to
    // the same turn start.
    let engine = TurnEngine::new(vec![3, 7], board32());
    let announce = engine.turn_announcement();
    assert_eq!(announce, ModemUartMessages::AnnounceTurn(3));
    let at_modem = over_serial(announce);
    match handle_host_command(&at_modem) {
        HostAction::Broadcast { pan, addr, payload } => {
            assert_eq!(pan, 0x0386);
            assert_eq!(addr, 0xFFFF);
            assert_eq!(decode_radio_message(&payload), Some(RadioMessages::StartTurn(3)));
        }
        _ => panic!("expected a broadcast"),
    }
}
