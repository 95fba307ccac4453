use drawlink::codec::{
    decode_envelope, decode_host_message, decode_radio_message, encode_envelope,
    encode_host_message, encode_radio_message,
};
use drawlink::proto::{
    ApiGrid, Cell, CellCommand, GridCommand, HostEnvelope, Line, LineCommand, ModemUartMessages,
    RadioMessages, RGB,
};

fn sample_cell() -> Cell {
    Cell { row: 3, column: 7, red: 10, green: 20, blue: 30 }
}

fn sample_line() -> Line {
    Line { row: 2, column: 5, red: 1, green: 2, blue: 3, direction: 3, length: 8 }
}

fn sample_grid() -> ApiGrid {
    let mut grid = [[RGB { red: 0, green: 0, blue: 0 }; 8]; 8];
    for i in 0..8 {
        for j in 0..8 {
            grid[i][j] = RGB { red: i as u8, green: j as u8, blue: (i * 8 + j) as u8 };
        }
    }
    ApiGrid { zero_row: 1, zero_column: 4, grid }
}

#[test]
fn radio_set_cell_bytes_are_stable() {
    let m = RadioMessages::SetCell(Cell { row: 1, column: 1, red: 200, green: 0, blue: 0 });
    // Discriminant 0, row 1, column 1, then the three channels.
    assert_eq!(encode_radio_message(&m), vec![0, 1, 1, 200, 0, 0]);
}

#[test]
fn radio_start_turn_bytes_are_stable() {
    // Discriminant 3, then the id little-endian.
    assert_eq!(encode_radio_message(&RadioMessages::StartTurn(3)), vec![3, 3, 0]);
    assert_eq!(encode_radio_message(&RadioMessages::StartTurn(0x1234)), vec![3, 0x34, 0x12]);
}

#[test]
fn radio_messages_roundtrip() {
    let cases = vec![
        RadioMessages::SetCell(sample_cell()),
        RadioMessages::SetLine(sample_line()),
        RadioMessages::SetGrid(sample_grid()),
        RadioMessages::StartTurn(0xABCD),
    ];
    for m in cases {
        let bytes = encode_radio_message(&m);
        assert_eq!(decode_radio_message(&bytes), Some(m));
    }
}

#[test]
fn radio_decode_rejects_bad_input() {
    // Empty payload, unknown discriminant, and trailing garbage all fail.
    assert_eq!(decode_radio_message(&[]), None);
    assert_eq!(decode_radio_message(&[9, 1, 1, 0, 0, 0]), None);
    let mut bytes = encode_radio_message(&RadioMessages::StartTurn(3));
    bytes.push(0xFF);
    assert_eq!(decode_radio_message(&bytes), None);
    // A truncated message fails too.
    let whole = encode_radio_message(&RadioMessages::SetCell(sample_cell()));
    assert_eq!(decode_radio_message(&whole[..whole.len() - 1]), None);
}

#[test]
fn host_messages_roundtrip() {
    let mut words = [0u64; 16];
    for (i, w) in words.iter_mut().enumerate() {
        *w = (i as u64) * 0x0101_0101_0101_0101;
    }
    let cases = vec![
        ModemUartMessages::SetCell(CellCommand { source: 3, dest: 0x0808, cell: sample_cell() }),
        ModemUartMessages::SetLine(LineCommand { source: 7, dest: 0x0808, line: sample_line() }),
        ModemUartMessages::SetGrid(GridCommand { source: 9, dest: 0x0808, grid: sample_grid() }),
        ModemUartMessages::Loopback(0x4242_4242),
        ModemUartMessages::AnnounceTurn(3),
        ModemUartMessages::LoadLoopBack(words),
    ];
    for m in cases {
        let bytes = encode_host_message(&m);
        assert_eq!(decode_host_message(&bytes), Some(m));
    }
}

#[test]
fn host_loopback_bytes_are_stable() {
    // Discriminant 3, then the value little-endian.
    assert_eq!(
        encode_host_message(&ModemUartMessages::Loopback(0x4242_4242)),
        vec![3, 0x42, 0x42, 0x42, 0x42]
    );
    // Discriminant 4, then the player id little-endian.
    assert_eq!(encode_host_message(&ModemUartMessages::AnnounceTurn(7)), vec![4, 7, 0]);
}

#[test]
fn envelopes_roundtrip() {
    let cases = vec![
        HostEnvelope::Log(b"hello".to_vec()),
        HostEnvelope::Warn(Vec::new()),
        HostEnvelope::Error(b"Out of range".to_vec()),
        HostEnvelope::BinaryRaw(vec![0, 1, 2, 255]),
        HostEnvelope::ProtocolMessage(ModemUartMessages::AnnounceTurn(3)),
    ];
    for e in cases {
        let bytes = encode_envelope(&e);
        assert_eq!(decode_envelope(&bytes), Some(e));
    }
}

#[test]
fn envelope_log_bytes_are_stable() {
    // Discriminant 0, a one-byte length, then the text.
    assert_eq!(encode_envelope(&HostEnvelope::Log(b"ok".to_vec())), vec![0, 2, b'o', b'k']);
}

#[test]
fn envelope_decode_rejects_bad_input() {
    assert_eq!(decode_envelope(&[]), None);
    assert_eq!(decode_envelope(&[7]), None);
    // A length prefix running past the end fails.
    assert_eq!(decode_envelope(&[0, 5, b'a']), None);
}

#[test]
fn large_row_and_column_roundtrip() {
    // Multi-byte variable-length coordinates survive the trip.
    let m = RadioMessages::SetCell(Cell { row: 300, column: 70000, red: 9, green: 8, blue: 7 });
    let bytes = encode_radio_message(&m);
    assert_eq!(decode_radio_message(&bytes), Some(m));
}

#[test]
fn negative_line_fields_roundtrip() {
    let m = RadioMessages::SetLine(Line {
        row: 1,
        column: 1,
        red: 0,
        green: 0,
        blue: 0,
        direction: -3,
        length: i32::MIN,
    });
    let bytes = encode_radio_message(&m);
    assert_eq!(decode_radio_message(&bytes), Some(m));
}
