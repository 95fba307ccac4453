use drawlink::codec::encode_radio_message;
use drawlink::modem::{
    handle_host_command, jittered_delay, process_message, Address, HostAction, IdleTracker,
    ModemError, RadioFrame, BROADCAST, IDLE_STEPDOWN, JITTER_US, MODEM_ADDR, MODEM_PAN,
    NOMINAL_INTERVAL_US,
};
use drawlink::proto::{Cell, ModemUartMessages, RadioMessages};

fn cell_payload() -> Vec<u8> {
    encode_radio_message(&RadioMessages::SetCell(Cell {
        row: 1,
        column: 1,
        red: 200,
        green: 0,
        blue: 0,
    }))
}

fn good_frame() -> RadioFrame {
    RadioFrame {
        source: Address::Short { pan: MODEM_PAN, addr: 0x0003 },
        destination: Address::Short { pan: MODEM_PAN, addr: MODEM_ADDR },
        payload: cell_payload(),
    }
}

#[test]
fn valid_frame_is_stamped_with_its_source() {
    let out = process_message(&good_frame()).unwrap();
    match out {
        ModemUartMessages::SetCell(cc) => {
            assert_eq!(cc.source, 0x0003);
            assert_eq!(cc.dest, MODEM_ADDR);
            assert_eq!(cc.cell, Cell { row: 1, column: 1, red: 200, green: 0, blue: 0 });
        }
        other => panic!("expected a cell command, got {:?}", other),
    }
}

#[test]
fn extended_source_is_rejected() {
    let mut f = good_frame();
    f.source = Address::Extended { pan: MODEM_PAN, addr: 0x1234_5678 };
    assert_eq!(process_message(&f), Err(ModemError::BadSourceAddress));
}

#[test]
fn broadcast_source_pan_is_rejected() {
    let mut f = good_frame();
    f.source = Address::Short { pan: BROADCAST, addr: 3 };
    assert_eq!(process_message(&f), Err(ModemError::BroadcastSourcePan));
}

#[test]
fn broadcast_source_addr_is_rejected() {
    let mut f = good_frame();
    f.source = Address::Short { pan: MODEM_PAN, addr: BROADCAST };
    assert_eq!(process_message(&f), Err(ModemError::BroadcastSourceAddr));
}

#[test]
fn pan_mismatch_is_rejected() {
    let mut f = good_frame();
    f.destination = Address::Short { pan: 0x9999, addr: MODEM_ADDR };
    assert_eq!(process_message(&f), Err(ModemError::PanMismatch));
}

#[test]
fn frame_for_another_node_is_rejected() {
    let mut f = good_frame();
    f.destination = Address::Short { pan: MODEM_PAN, addr: 0x0004 };
    assert_eq!(process_message(&f), Err(ModemError::WrongDestination));
}

#[test]
fn undecodable_payload_is_rejected() {
    let mut f = good_frame();
    f.payload = vec![9, 9, 9];
    assert_eq!(process_message(&f), Err(ModemError::DecodeFailed));
}

#[test]
fn client_start_turn_is_rejected() {
    let mut f = good_frame();
    f.payload = encode_radio_message(&RadioMessages::StartTurn(3));
    assert_eq!(process_message(&f), Err(ModemError::UnexpectedStartTurn));
}

#[test]
fn loopback_commands_echo() {
    let m = ModemUartMessages::Loopback(0x4242_4242);
    assert!(matches!(handle_host_command(&m), HostAction::EchoData(x) if x == m));
    let w = ModemUartMessages::LoadLoopBack([7u64; 16]);
    assert!(matches!(handle_host_command(&w), HostAction::EchoData(x) if x == w));
}

#[test]
fn announce_turn_becomes_broadcast() {
    match handle_host_command(&ModemUartMessages::AnnounceTurn(3)) {
        HostAction::Broadcast { pan, addr, payload } => {
            assert_eq!(pan, MODEM_PAN);
            assert_eq!(addr, BROADCAST);
            assert_eq!(payload, encode_radio_message(&RadioMessages::StartTurn(3)));
            assert!(payload.len() <= 32);
        }
        other => panic!("expected a broadcast, got {:?}", std::mem::discriminant(&other)),
    }
}

#[test]
fn idle_tracker_warns_on_tenth_timeout() {
    let mut t = IdleTracker::new();
    for _ in 0..IDLE_STEPDOWN - 1 {
        assert!(!t.on_timeout());
    }
    assert!(t.on_timeout());
    // The run starts over after a warning.
    assert!(!t.on_timeout());
    t.on_frame();
    assert_eq!(t.count, 0);
}

#[test]
fn jitter_stays_within_band() {
    for draw in [0u32, 1, 24_999, 25_000, u32::MAX] {
        let d = jittered_delay(NOMINAL_INTERVAL_US, JITTER_US, draw);
        assert!(d >= NOMINAL_INTERVAL_US - JITTER_US);
        assert!(d < NOMINAL_INTERVAL_US + JITTER_US);
    }
    assert_eq!(jittered_delay(250_000, 50_000, 0), 200_000);
    assert_eq!(jittered_delay(250_000, 50_000, 100_001), 200_001);
}
