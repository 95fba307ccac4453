use std::collections::HashMap;
use drawlink::board::{
    clear_cells, find_endpoint_type, random_muted_rgb, validate_and_remap, BoardManagerConfig,
    BoardMode, DrawSession, PaintRequest, PeriodTimer, Segment, Span, TurnEngine, TurnOutcome,
};
use drawlink::proto::{Cell, CellCommand, ModemUartMessages};

fn board32() -> Segment {
    Segment { x: Span { start: 1, end: 32 }, y: Span { start: 1, end: 32 } }
}

fn cell_msg(source: u16, column: usize, row: usize) -> ModemUartMessages {
    ModemUartMessages::SetCell(CellCommand {
        source,
        dest: 0x0808,
        cell: Cell { row, column, red: 200, green: 0, blue: 0 },
    })
}

#[test]
fn freedraw_remap_is_identity_on_the_board() {
    let board = board32();
    for (c, r) in [(1usize, 1usize), (32, 32), (17, 4)] {
        assert_eq!(validate_and_remap(&board, None, &cell_msg(3, c, r)), Ok((c, r)));
    }
}

#[test]
fn freedraw_remap_rejects_off_board() {
    let board = board32();
    for (c, r) in [(0usize, 1usize), (1, 0), (33, 1), (1, 33)] {
        assert_eq!(validate_and_remap(&board, None, &cell_msg(3, c, r)), Err(()));
    }
}

#[test]
fn partition_remap_translates_into_the_partition() {
    let board = board32();
    let mut parts = HashMap::new();
    parts.insert(3u16, Segment { x: Span { start: 25, end: 32 }, y: Span { start: 25, end: 32 } });
    // (c, r) with 1 <= c <= 1 + (end - start) maps to (c - 1 + start, ...).
    assert_eq!(validate_and_remap(&board, Some(&parts), &cell_msg(3, 1, 1)), Ok((25, 25)));
    assert_eq!(validate_and_remap(&board, Some(&parts), &cell_msg(3, 8, 8)), Ok((32, 32)));
    assert_eq!(validate_and_remap(&board, Some(&parts), &cell_msg(3, 2, 5)), Ok((26, 29)));
}

#[test]
fn partition_remap_rejects_outside_and_unknown() {
    let board = board32();
    let mut parts = HashMap::new();
    parts.insert(3u16, Segment { x: Span { start: 25, end: 32 }, y: Span { start: 25, end: 32 } });
    // A coordinate past the 8-wide partition is out of range.
    assert_eq!(validate_and_remap(&board, Some(&parts), &cell_msg(3, 1, 9)), Err(()));
    assert_eq!(validate_and_remap(&board, Some(&parts), &cell_msg(3, 9, 1)), Err(()));
    assert_eq!(validate_and_remap(&board, Some(&parts), &cell_msg(3, 0, 1)), Err(()));
    // An unknown sender is rejected outright.
    assert_eq!(validate_and_remap(&board, Some(&parts), &cell_msg(4, 1, 1)), Err(()));
}

#[test]
fn non_paint_messages_pass_through() {
    let board = board32();
    assert_eq!(
        validate_and_remap(&board, None, &ModemUartMessages::Loopback(1)),
        Ok((0, 0))
    );
}

#[test]
fn endpoint_names_follow_the_message() {
    assert_eq!(find_endpoint_type(&cell_msg(1, 1, 1)), "cell");
    assert_eq!(find_endpoint_type(&ModemUartMessages::AnnounceTurn(1)), " ");
}

#[test]
fn clear_paints_every_cell_once() {
    let rgb = random_muted_rgb();
    assert!(rgb.red <= 63 && rgb.green <= 63 && rgb.blue <= 63);
    let cells = clear_cells(3, 2, rgb);
    assert_eq!(cells.len(), 6);
    // Column-major, 1-indexed, all in the chosen color.
    assert_eq!(cells[0], Cell { row: 1, column: 1, red: rgb.red, green: rgb.green, blue: rgb.blue });
    assert_eq!(cells[1].row, 2);
    assert_eq!(cells[1].column, 1);
    assert_eq!(cells[5].row, 2);
    assert_eq!(cells[5].column, 3);
    for (x, y) in [(1usize, 1usize), (1, 2), (2, 1), (2, 2), (3, 1), (3, 2)] {
        assert!(cells.iter().any(|c| c.column == x && c.row == y));
    }
}

#[test]
fn period_timer_fires_and_restarts() {
    let mut t = PeriodTimer::new(30_000, 1_000);
    assert!(!t.due(1_000));
    assert!(!t.due(30_999));
    assert!(t.due(31_000));
    t.restart(31_000);
    assert!(!t.due(31_001));
}

#[test]
fn draw_session_builds_remapped_requests() {
    let mut parts = HashMap::new();
    parts.insert(3u16, Segment { x: Span { start: 25, end: 32 }, y: Span { start: 25, end: 32 } });
    let s = DrawSession::new(board32(), Some(parts));
    match s.handle_message(&cell_msg(3, 1, 1)) {
        Some(PaintRequest::Cell(c)) => {
            assert_eq!(c, Cell { row: 25, column: 25, red: 200, green: 0, blue: 0 });
        }
        other => panic!("expected a cell paint, got {:?}", other),
    }
    assert_eq!(s.handle_message(&cell_msg(3, 9, 1)), None);
    assert_eq!(s.handle_message(&ModemUartMessages::AnnounceTurn(1)), None);
}

#[test]
fn turn_engine_cycles_players() {
    let mut e = TurnEngine::new(vec![3, 7], board32());
    assert_eq!(e.active_player(), 3);
    assert_eq!(e.turn_announcement(), ModemUartMessages::AnnounceTurn(3));
    e.advance_turn();
    assert_eq!(e.active_player(), 7);
    e.advance_turn();
    assert_eq!(e.active_player(), 3);
}

#[test]
fn turn_engine_rejects_out_of_turn_paints() {
    let mut e = TurnEngine::new(vec![3, 7], board32());
    // Active player is 3; source 7 is turned away and nothing is painted.
    assert_eq!(e.handle_message(&cell_msg(7, 1, 1)), TurnOutcome::OutOfTurn(7));
}

#[test]
fn turn_engine_rejects_out_of_range_paints() {
    let mut e = TurnEngine::new(vec![3, 7], board32());
    assert_eq!(e.handle_message(&cell_msg(3, 33, 1)), TurnOutcome::OutOfRange);
}

#[test]
fn accepted_cell_paint_lands_on_the_saved_canvas() {
    let mut e = TurnEngine::new(vec![3], board32());
    let out = e.handle_message(&cell_msg(3, 5, 9));
    match out {
        TurnOutcome::Accepted(PaintRequest::Cell(c)) => {
            assert_eq!(c, Cell { row: 9, column: 5, red: 200, green: 0, blue: 0 });
        }
        other => panic!("expected an accepted cell, got {:?}", other),
    }
    // The restore paints now repaint that cell in the new color.
    let restore = e.restore_requests();
    assert_eq!(restore.len(), 32 * 32);
    let painted = restore.iter().find(|c| c.column == 5 && c.row == 9).unwrap();
    assert_eq!((painted.red, painted.green, painted.blue), (200, 0, 0));
    // A neighbouring cell keeps the muted turn color.
    let other = restore.iter().find(|c| c.column == 6 && c.row == 9).unwrap();
    assert!(other.red <= 63 && other.green <= 63 && other.blue <= 63);
}

#[test]
fn default_config_matches_the_classroom_setup() {
    let d = BoardManagerConfig::default();
    assert_eq!(d.total_board, board32());
    match d.mode {
        BoardMode::Partitioned { clear_interval_ms, partitions } => {
            assert_eq!(clear_interval_ms, 30_000);
            assert_eq!(
                partitions.get(&0),
                Some(&Segment { x: Span { start: 25, end: 32 }, y: Span { start: 25, end: 32 } })
            );
            assert_eq!(partitions.len(), 1);
        }
        _ => panic!("expected the partitioned default"),
    }
}
