//! The board manager's decisions: validation and remapping of incoming
//! paints against the canvas and its partitions, the three operating modes,
//! the periodic clear, and turn arbitration.
//!
//! Everything here is a function from plain values to plain values: the
//! channels, the clock and the display's transport stay outside and feed
//! these functions received messages, elapsed times and random draws.

use vstd::prelude::*;
use std::collections::HashMap;
use crate::proto::{ApiGrid, Cell, Line, ModemUartMessages, RGB};

verus! {

broadcast use vstd::std_specs::hash::group_hash_axioms;

/// An inclusive range of 1-indexed board coordinates.
#[derive(Clone, Copy, PartialEq, Eq, Structural, Debug)]
pub struct Span {
    pub start: usize,
    pub end: usize,
}

impl Span {
    /// A span runs upward from a 1-indexed start.
    pub open spec fn wf(&self) -> bool {
        1 <= self.start <= self.end
    }

    /// Whether a coordinate lies inside the span.
    pub open spec fn holds(&self, v: usize) -> bool {
        self.start <= v <= self.end
    }
}

/// A rectangular region of the canvas.
#[derive(Clone, Copy, PartialEq, Eq, Structural, Debug)]
pub struct Segment {
    pub x: Span,
    pub y: Span,
}

impl Segment {
    pub open spec fn wf(&self) -> bool {
        self.x.wf() && self.y.wf()
    }
}

/// Every partition in a map is a well-formed rectangle.
pub open spec fn parts_wf(m: Map<u16, Segment>) -> bool {
    forall|k: u16| m.contains_key(k) ==> (#[trigger] m[k]).wf()
}

/// The partition map seen through an optional reference.
pub open spec fn parts_view(p: Option<&HashMap<u16, Segment>>) -> Option<Map<u16, Segment>> {
    match p {
        Some(m) => Some(m@),
        None => None,
    }
}

/// The sender and the 1-indexed (column, row) a paint message speaks of:
/// a cell's position, a line's starting position, or a grid stamp's
/// origin.  Non-paint messages carry no coordinates.
pub open spec fn paint_coords(msg: ModemUartMessages) -> Option<(u16, usize, usize)> {
    match msg {
        ModemUartMessages::SetCell(cc) => Some((cc.source, cc.cell.column, cc.cell.row)),
        ModemUartMessages::SetLine(lc) => Some((lc.source, lc.line.column, lc.line.row)),
        ModemUartMessages::SetGrid(gc) => Some((gc.source, gc.grid.zero_column, gc.grid.zero_row)),
        _ => None,
    }
}

/// Where a paint lands on the global canvas, or a rejection.
///
/// With partitions, a sender must own a partition `P`, its coordinates are
/// 1-indexed within `P`'s size, and `(c, r)` maps to
/// `(c - 1 + P.x.start, r - 1 + P.y.start)`.  Without partitions the
/// coordinates must lie on the board and map to themselves.  A non-paint
/// message maps to `(0, 0)`.
pub open spec fn remap_spec(
    board: Segment,
    parts: Option<Map<u16, Segment>>,
    msg: ModemUartMessages,
) -> Result<(usize, usize), ()> {
    match paint_coords(msg) {
        None => Ok((0, 0)),
        Some((src, c, r)) => match parts {
            Some(pm) => if !pm.contains_key(src) {
                Err(())
            } else {
                let p = pm[src];
                if 1 <= c <= 1 + (p.x.end - p.x.start) && 1 <= r <= 1 + (p.y.end - p.y.start) {
                    Ok((((c - 1) + p.x.start) as usize, ((r - 1) + p.y.start) as usize))
                } else {
                    Err(())
                }
            },
            None => if board.x.holds(c) && board.y.holds(r) {
                Ok((c, r))
            } else {
                Err(())
            },
        },
    }
}

/// Validates a paint's coordinates and remaps them onto the global canvas:
/// partition-relative with a partition map, identity on the board without
/// one; everything out of range or from an unknown sender is rejected.
pub fn validate_and_remap(
    board: &Segment,
    partitions: Option<&HashMap<u16, Segment>>,
    msg: &ModemUartMessages,
) -> (r: Result<(usize, usize), ()>)
    requires
        partitions matches Some(m) ==> parts_wf(m@),
    ensures
        r == remap_spec(*board, parts_view(partitions), *msg),
{
    let (src, c, row) = match msg {
        ModemUartMessages::SetCell(cc) => (cc.source, cc.cell.column, cc.cell.row),
        ModemUartMessages::SetLine(lc) => (lc.source, lc.line.column, lc.line.row),
        ModemUartMessages::SetGrid(gc) => (gc.source, gc.grid.zero_column, gc.grid.zero_row),
        _ => {
            return Ok((0, 0));
        },
    };
    match partitions {
        Some(parts) => match parts.get(&src) {
            None => Err(()),
            Some(part) => {
                let xrange = part.x.end - part.x.start;
                let yrange = part.y.end - part.y.start;
                if 1 <= c && c <= 1 + xrange && 1 <= row && row <= 1 + yrange {
                    Ok(((c - 1) + part.x.start, (row - 1) + part.y.start))
                } else {
                    Err(())
                }
            },
        },
        None => {
            if board.x.start <= c && c <= board.x.end && board.y.start <= row && row
                <= board.y.end {
                Ok((c, row))
            } else {
                Err(())
            }
        },
    }
}

/// One outgoing display paint, already remapped to global coordinates.
/// Each variant goes to the display endpoint of the same name.
#[derive(Clone, Copy, PartialEq, Eq, Debug)]
pub enum PaintRequest {
    Cell(Cell),
    Line(Line),
    Grid(ApiGrid),
}

/// The display request a message produces, if it is a valid paint: the
/// same payload with its coordinates replaced by the remapped ones.
pub open spec fn request_spec(
    board: Segment,
    parts: Option<Map<u16, Segment>>,
    msg: ModemUartMessages,
) -> Option<PaintRequest> {
    match remap_spec(board, parts, msg) {
        Err(()) => None,
        Ok((x, y)) => match msg {
            ModemUartMessages::SetCell(cc) => Some(
                PaintRequest::Cell(
                    Cell {
                        row: y,
                        column: x,
                        red: cc.cell.red,
                        green: cc.cell.green,
                        blue: cc.cell.blue,
                    },
                ),
            ),
            ModemUartMessages::SetLine(lc) => Some(
                PaintRequest::Line(
                    Line {
                        row: y,
                        column: x,
                        red: lc.line.red,
                        green: lc.line.green,
                        blue: lc.line.blue,
                        direction: lc.line.direction,
                        length: lc.line.length,
                    },
                ),
            ),
            ModemUartMessages::SetGrid(gc) => Some(
                PaintRequest::Grid(
                    ApiGrid { zero_row: y, zero_column: x, grid: gc.grid.grid },
                ),
            ),
            _ => None,
        },
    }
}

/// The free-draw and partitioned modes: a board, optional partitions, and
/// nothing else.  Each accepted message becomes at most one display
/// request, so the display never sees more paints than arrived.
pub struct DrawSession {
    pub board: Segment,
    pub partitions: Option<HashMap<u16, Segment>>,
}

impl DrawSession {
    pub open spec fn wf(&self) -> bool {
        self.partitions matches Some(m) ==> parts_wf(m@)
    }

    pub open spec fn spec_parts(&self) -> Option<Map<u16, Segment>> {
        match self.partitions {
            Some(m) => Some(m@),
            None => None,
        }
    }

    pub fn new(board: Segment, partitions: Option<HashMap<u16, Segment>>) -> (r: DrawSession)
        requires
            partitions matches Some(m) ==> parts_wf(m@),
        ensures
            r.wf(),
            r.board == board,
            r.spec_parts() == match partitions {
                Some(m) => Some(m@),
                None => None,
            },
    {
        DrawSession { board, partitions }
    }

    /// Validates and remaps one inbound message; a valid paint becomes
    /// the one display request it maps to, anything else becomes none.
    pub fn handle_message(&self, msg: &ModemUartMessages) -> (r: Option<PaintRequest>)
        requires
            self.wf(),
        ensures
            r == request_spec(self.board, self.spec_parts(), *msg),
    {
        let remapped = match &self.partitions {
            Some(m) => validate_and_remap(&self.board, Some(m), msg),
            None => validate_and_remap(&self.board, None, msg),
        };
        let (x, y) = match remapped {
            Ok(p) => p,
            Err(()) => {
                return None;
            },
        };
        match msg {
            ModemUartMessages::SetCell(cc) => Some(
                PaintRequest::Cell(
                    Cell {
                        row: y,
                        column: x,
                        red: cc.cell.red,
                        green: cc.cell.green,
                        blue: cc.cell.blue,
                    },
                ),
            ),
            ModemUartMessages::SetLine(lc) => Some(
                PaintRequest::Line(
                    Line {
                        row: y,
                        column: x,
                        red: lc.line.red,
                        green: lc.line.green,
                        blue: lc.line.blue,
                        direction: lc.line.direction,
                        length: lc.line.length,
                    },
                ),
            ),
            ModemUartMessages::SetGrid(gc) => Some(
                PaintRequest::Grid(ApiGrid { zero_row: y, zero_column: x, grid: gc.grid.grid }),
            ),
            _ => None,
        }
    }
}

/// A repeating deadline over a millisecond clock: the periodic clear, the
/// turn length and the announcement refresh all use one.
#[derive(Clone, Copy, PartialEq, Eq, Structural, Debug)]
pub struct PeriodTimer {
    pub period_ms: u64,
    pub last_ms: u64,
}

impl PeriodTimer {
    /// A timer that last fired at `now_ms`.
    pub fn new(period_ms: u64, now_ms: u64) -> (r: PeriodTimer)
        ensures
            r.period_ms == period_ms,
            r.last_ms == now_ms,
    {
        PeriodTimer { period_ms, last_ms: now_ms }
    }

    /// Whether a full period has passed.
    pub fn due(&self, now_ms: u64) -> (r: bool)
        requires
            now_ms >= self.last_ms,
        ensures
            r == (now_ms - self.last_ms >= self.period_ms),
    {
        now_ms - self.last_ms >= self.period_ms
    }

    /// Starts the next period at `now_ms`.
    pub fn restart(&mut self, now_ms: u64)
        ensures
            final(self).period_ms == old(self).period_ms,
            final(self).last_ms == now_ms,
    {
        self.last_ms = now_ms;
    }
}

/// Which display endpoint a message's paints go to, judged from the first
/// decoded command: "cell", "line" or "grid", or a blank name for
/// messages that never reach the display.
pub fn find_endpoint_type(msg: &ModemUartMessages) -> (r: String)
    ensures
        msg matches ModemUartMessages::SetCell(_) ==> r@ == "cell"@,
        msg matches ModemUartMessages::SetLine(_) ==> r@ == "line"@,
        msg matches ModemUartMessages::SetGrid(_) ==> r@ == "grid"@,
        !(msg matches ModemUartMessages::SetCell(_) || msg matches ModemUartMessages::SetLine(_)
            || msg matches ModemUartMessages::SetGrid(_)) ==> r@ == " "@,
{
    match msg {
        ModemUartMessages::SetCell(_) => "cell".to_owned(),
        ModemUartMessages::SetLine(_) => "line".to_owned(),
        ModemUartMessages::SetGrid(_) => "grid".to_owned(),
        _ => " ".to_owned(),
    }
}

/// The operating mode the board manager boots into, from configuration.
/// Intervals are milliseconds.
pub enum BoardMode {
    FreeDraw { clear_interval_ms: u64 },
    Partitioned { clear_interval_ms: u64, partitions: HashMap<u16, Segment> },
    RoundRobin { turn_interval_ms: u64, notify_interval_ms: u64, players: Vec<u16> },
}

/// The board manager's boot configuration: a mode and the whole canvas.
pub struct BoardManagerConfig {
    pub mode: BoardMode,
    pub total_board: Segment,
}

/// Where the display service listens.
pub struct SquaresConfig {
    pub host: String,
    pub port: u16,
}

impl Default for BoardManagerConfig {
    /// The classroom default: a 32 by 32 canvas cleared every thirty
    /// seconds, with one known sender owning its lower-right 8 by 8
    /// corner.
    fn default() -> (d: Self)
        ensures
            d.total_board == (Segment {
                x: Span { start: 1, end: 32 },
                y: Span { start: 1, end: 32 },
            }),
            d.mode matches BoardMode::Partitioned { clear_interval_ms, partitions } && {
                &&& clear_interval_ms == 30_000
                &&& partitions@ == map![
                    0u16 => Segment {
                        x: Span { start: 25, end: 32 },
                        y: Span { start: 25, end: 32 },
                    },
                ]
            },
    {
        let mut partitions: HashMap<u16, Segment> = HashMap::new();
        partitions.insert(
            0,
            Segment { x: Span { start: 25, end: 32 }, y: Span { start: 25, end: 32 } },
        );
        proof {
            assert(partitions@ =~= map![
                0u16 => Segment {
                    x: Span { start: 25, end: 32 },
                    y: Span { start: 25, end: 32 },
                },
            ]);
        }
        BoardManagerConfig {
            mode: BoardMode::Partitioned { clear_interval_ms: 30_000, partitions },
            total_board: Segment {
                x: Span { start: 1, end: 32 },
                y: Span { start: 1, end: 32 },
            },
        }
    }
}

// ---------------------------------------------------------------------------
// The periodic clear and the saved canvases
// ---------------------------------------------------------------------------

/// A muted color: every channel at most a quarter of full scale.
pub open spec fn muted(c: RGB) -> bool {
    c.red <= 63 && c.green <= 63 && c.blue <= 63
}

/// Relies on rand::random_range over `0 ..= 63` for each channel: a value
/// drawn uniformly from the given range, which panics only on an empty
/// range.  Used for the muted colors of the periodic clear and of the
/// initial saved canvases.
#[verifier::external_body]
pub fn random_muted_rgb() -> (c: RGB)
    ensures
        muted(c),
{
    RGB {
        red: rand::random_range(0..=63u8),
        green: rand::random_range(0..=63u8),
        blue: rand::random_range(0..=63u8),
    }
}

/// The cell the `k`th clear paint writes: column-major over a board of
/// `y_max` rows, 1-indexed.
pub open spec fn clear_cell_at(y_max: usize, rgb: RGB, k: int) -> Cell {
    Cell {
        row: (1 + k % (y_max as int)) as usize,
        column: (1 + k / (y_max as int)) as usize,
        red: rgb.red,
        green: rgb.green,
        blue: rgb.blue,
    }
}

/// Every cell of a `x_max` by `y_max` board painted in one color, column
/// by column: the paints of a periodic clear.
pub fn clear_cells(x_max: usize, y_max: usize, rgb: RGB) -> (r: Vec<Cell>)
    requires
        x_max * y_max <= usize::MAX,
    ensures
        r@.len() == x_max * y_max,
        forall|k: int| 0 <= k < r@.len() ==> #[trigger] r@[k] == clear_cell_at(y_max, rgb, k),
{
    let mut out: Vec<Cell> = Vec::new();
    let mut x0: usize = 0;
    while x0 < x_max
        invariant
            0 <= x0 <= x_max,
            x_max * y_max <= usize::MAX,
            out@.len() == x0 * y_max,
            forall|k: int| 0 <= k < out@.len() ==> #[trigger] out@[k] == clear_cell_at(
                y_max,
                rgb,
                k,
            ),
        decreases x_max - x0,
    {
        let mut y0: usize = 0;
        while y0 < y_max
            invariant
                0 <= x0 < x_max,
                0 <= y0 <= y_max,
                x_max * y_max <= usize::MAX,
                out@.len() == x0 * y_max + y0,
                forall|k: int| 0 <= k < out@.len() ==> #[trigger] out@[k] == clear_cell_at(
                    y_max,
                    rgb,
                    k,
                ),
            decreases y_max - y0,
        {
            proof {
                assert(x0 * y_max + y0 < x_max * y_max) by (nonlinear_arith)
                    requires
                        0 <= x0 < x_max,
                        0 <= y0 < y_max,
                {}
                vstd::arithmetic::div_mod::lemma_fundamental_div_mod_converse(
                    (x0 * y_max + y0) as int,
                    y_max as int,
                    x0 as int,
                    y0 as int,
                );
            }
            out.push(
                Cell { row: y0 + 1, column: x0 + 1, red: rgb.red, green: rgb.green, blue: rgb.blue },
            );
            y0 = y0 + 1;
        }
        proof {
            assert(x0 * y_max + y_max == (x0 + 1) * y_max) by (nonlinear_arith) {}
        }
        x0 = x0 + 1;
    }
    out
}

/// A saved canvas: one row of colors per board row.
pub open spec fn matrix_wf(m: Vec<Vec<RGB>>, rows: int, cols: int) -> bool {
    &&& m@.len() == rows
    &&& forall|i: int| 0 <= i < rows ==> (#[trigger] m@[i])@.len() == cols
}

/// A matrix filled entirely with one muted color.
pub open spec fn uniform_muted(m: Vec<Vec<RGB>>) -> bool {
    exists|c: RGB| muted(c) && uniform(m, c)
}

/// Every cell of a matrix holds one color.
pub open spec fn uniform(m: Vec<Vec<RGB>>, c: RGB) -> bool {
    forall|i: int, j: int|
        0 <= i < m@.len() && 0 <= j < m@[i]@.len() ==> #[trigger] m@[i]@[j] == c
}

/// A `rows` by `cols` matrix filled with one color.
fn uniform_matrix(rows: usize, cols: usize, c: RGB) -> (r: Vec<Vec<RGB>>)
    ensures
        matrix_wf(r, rows as int, cols as int),
        uniform(r, c),
{
    let mut m: Vec<Vec<RGB>> = Vec::new();
    let mut i: usize = 0;
    while i < rows
        invariant
            0 <= i <= rows,
            m@.len() == i,
            forall|a: int| 0 <= a < i ==> (#[trigger] m@[a])@.len() == cols,
            forall|a: int, b: int|
                0 <= a < i && 0 <= b < m@[a]@.len() ==> #[trigger] m@[a]@[b] == c,
        decreases rows - i,
    {
        let mut row: Vec<RGB> = Vec::new();
        let mut j: usize = 0;
        while j < cols
            invariant
                0 <= j <= cols,
                row@.len() == j,
                forall|b: int| 0 <= b < j ==> row@[b] == c,
            decreases cols - j,
        {
            row.push(c);
            j = j + 1;
        }
        m.push(row);
        i = i + 1;
    }
    m
}

/// The cell the restore paint for matrix position `(i, j)` writes.
pub open spec fn restore_cell_at(m: Vec<Vec<RGB>>, cols: int, k: int) -> Cell {
    Cell {
        row: (1 + k / cols) as usize,
        column: (1 + k % cols) as usize,
        red: m@[k / cols]@[k % cols].red,
        green: m@[k / cols]@[k % cols].green,
        blue: m@[k / cols]@[k % cols].blue,
    }
}

/// The paints that repaint a whole canvas from a saved matrix, row by
/// row.
pub fn restore_cells(m: &Vec<Vec<RGB>>, cols: usize) -> (r: Vec<Cell>)
    requires
        forall|i: int| 0 <= i < m@.len() ==> (#[trigger] m@[i])@.len() == cols,
        m@.len() * cols <= usize::MAX,
    ensures
        r@.len() == m@.len() * cols,
        forall|k: int| 0 <= k < r@.len() ==> #[trigger] r@[k] == restore_cell_at(*m, cols as int, k),
{
    let rows = m.len();
    let mut out: Vec<Cell> = Vec::new();
    let mut i: usize = 0;
    while i < rows
        invariant
            0 <= i <= rows,
            rows == m@.len(),
            rows * cols <= usize::MAX,
            forall|a: int| 0 <= a < m@.len() ==> (#[trigger] m@[a])@.len() == cols,
            out@.len() == i * cols,
            forall|k: int| 0 <= k < out@.len() ==> #[trigger] out@[k] == restore_cell_at(
                *m,
                cols as int,
                k,
            ),
        decreases rows - i,
    {
        let row = &m[i];
        let mut j: usize = 0;
        while j < cols
            invariant
                0 <= i < rows,
                0 <= j <= cols,
                rows == m@.len(),
                rows * cols <= usize::MAX,
                forall|a: int| 0 <= a < m@.len() ==> (#[trigger] m@[a])@.len() == cols,
                row == &m@[i as int],
                out@.len() == i * cols + j,
                forall|k: int| 0 <= k < out@.len() ==> #[trigger] out@[k] == restore_cell_at(
                    *m,
                    cols as int,
                    k,
                ),
            decreases cols - j,
        {
            proof {
                assert(i * cols + j < rows * cols) by (nonlinear_arith)
                    requires
                        0 <= i < rows,
                        0 <= j < cols,
                {}
                vstd::arithmetic::div_mod::lemma_fundamental_div_mod_converse(
                    (i * cols + j) as int,
                    cols as int,
                    i as int,
                    j as int,
                );
            }
            let c = row[j];
            out.push(Cell { row: i + 1, column: j + 1, red: c.red, green: c.green, blue: c.blue });
            j = j + 1;
        }
        proof {
            assert(i * cols + cols == (i + 1) * cols) by (nonlinear_arith) {}
        }
        i = i + 1;
    }
    out
}

// ---------------------------------------------------------------------------
// Round-robin turn arbitration
// ---------------------------------------------------------------------------

/// What the turn engine does with one inbound message.
#[derive(Clone, Copy, PartialEq, Eq, Debug)]
pub enum TurnOutcome {
    /// Not a paint; nothing happens.
    Ignored,
    /// The sender is not the active player; dropped with a diagnostic.
    OutOfTurn(u16),
    /// The active player painted outside the board; dropped with a
    /// diagnostic.
    OutOfRange,
    /// Accepted: forward this request to the display.
    Accepted(PaintRequest),
}

/// How the turn engine judges one message: paints from anyone but the
/// active player are out of turn; the active player's paints are
/// validated against the whole board.
pub open spec fn turn_outcome_spec(
    board: Segment,
    active: u16,
    msg: ModemUartMessages,
) -> TurnOutcome {
    match paint_coords(msg) {
        None => TurnOutcome::Ignored,
        Some((src, c, r)) => if src != active {
            TurnOutcome::OutOfTurn(src)
        } else {
            match request_spec(board, None, msg) {
                None => TurnOutcome::OutOfRange,
                Some(pr) => TurnOutcome::Accepted(pr),
            }
        },
    }
}

/// Round-robin turn arbitration: the players in cycling order, the whole
/// board, and one saved canvas per player.  At any instant exactly one
/// player (the one at `current`) is active, and only that player's paints
/// are accepted while its turn lasts.
pub struct TurnEngine {
    pub players: Vec<u16>,
    pub current: usize,
    pub board: Segment,
    pub boards: HashMap<u16, Vec<Vec<RGB>>>,
}

impl TurnEngine {
    /// The player whose turn it is.
    pub open spec fn spec_active(&self) -> u16 {
        self.players@[self.current as int]
    }

    pub open spec fn wf(&self) -> bool {
        &&& self.players@.len() > 0
        &&& self.current < self.players@.len()
        &&& self.board.wf()
        &&& self.board.y.end * self.board.x.end <= usize::MAX
        &&& forall|i: int|
            0 <= i < self.players@.len() ==> self.boards@.contains_key(
                #[trigger] self.players@[i],
            )
        &&& forall|k: u16|
            self.boards@.contains_key(k) ==> matrix_wf(
                #[trigger] self.boards@[k],
                self.board.y.end as int,
                self.board.x.end as int,
            )
    }

    /// A fresh engine: the first listed player is active and every
    /// player's saved canvas is filled with one muted random color.
    pub fn new(players: Vec<u16>, board: Segment) -> (r: TurnEngine)
        requires
            players@.len() > 0,
            board.wf(),
            board.y.end * board.x.end <= usize::MAX,
        ensures
            r.wf(),
            r.players == players,
            r.board == board,
            r.current == 0,
            forall|k: u16| r.boards@.contains_key(k) <==> players@.contains(k),
            forall|k: u16| r.boards@.contains_key(k) ==> uniform_muted(#[trigger] r.boards@[k]),
    {
        proof {
            broadcast use vstd::seq_lib::lemma_seq_take_contains;
            broadcast use vstd::seq_lib::lemma_seq_contains_after_push;
            broadcast use vstd::seq_lib::lemma_seq_take_len;

        }
        let mut boards: HashMap<u16, Vec<Vec<RGB>>> = HashMap::new();
        let mut i: usize = 0;
        while i < players.len()
            invariant
                0 <= i <= players@.len(),
                board.wf(),
                board.y.end * board.x.end <= usize::MAX,
                forall|k: u16| boards@.contains_key(k) <==> players@.take(i as int).contains(k),
                forall|k: u16|
                    boards@.contains_key(k) ==> matrix_wf(
                        #[trigger] boards@[k],
                        board.y.end as int,
                        board.x.end as int,
                    ),
                forall|k: u16|
                    boards@.contains_key(k) ==> uniform_muted(#[trigger] boards@[k]),
            decreases players@.len() - i,
        {
            let rgb = random_muted_rgb();
            let m = uniform_matrix(board.y.end, board.x.end, rgb);
            proof {
                assert(muted(rgb) && uniform(m, rgb));
                assert(uniform_muted(m));
            }
            boards.insert(players[i], m);
            i = i + 1;
            proof {
                broadcast use vstd::seq_lib::lemma_seq_contains_after_push;

                assert(players@.take(i as int) =~= players@.take(i - 1).push(
                    players@[i - 1],
                ));
            }
        }
        proof {
            assert(players@.take(players@.len() as int) =~= players@);
        }
        TurnEngine { players, current: 0, board, boards }
    }

    /// The player whose turn it is.
    pub fn active_player(&self) -> (r: u16)
        requires
            self.wf(),
        ensures
            r == self.spec_active(),
    {
        self.players[self.current]
    }

    /// The announcement to broadcast for the current turn.
    pub fn turn_announcement(&self) -> (r: ModemUartMessages)
        requires
            self.wf(),
        ensures
            r == ModemUartMessages::AnnounceTurn(self.spec_active()),
    {
        ModemUartMessages::AnnounceTurn(self.players[self.current])
    }

    /// The paints that repaint the board from the active player's saved
    /// canvas, for the start of its turn.
    pub fn restore_requests(&self) -> (r: Vec<Cell>)
        requires
            self.wf(),
        ensures
            r@.len() == self.board.y.end * self.board.x.end,
            forall|k: int|
                0 <= k < r@.len() ==> #[trigger] r@[k] == restore_cell_at(
                    self.boards@[self.spec_active()],
                    self.board.x.end as int,
                    k,
                ),
    {
        let active = self.players[self.current];
        let m = match self.boards.get(&active) {
            Some(m) => m,
            None => {
                proof {
                    assert(self.boards@.contains_key(self.spec_active()));
                    assert(false);
                }
                unreached()
            },
        };
        restore_cells(m, self.board.x.end)
    }

    /// Passes the turn to the next player in list order, wrapping around.
    pub fn advance_turn(&mut self)
        requires
            old(self).wf(),
        ensures
            final(self).wf(),
            final(self).players == old(self).players,
            final(self).board == old(self).board,
            final(self).boards == old(self).boards,
            final(self).current as int == (old(self).current + 1) % (
            old(self).players@.len() as int),
    {
        let ghost cur = old(self).current as int;
        let ghost n = old(self).players@.len() as int;
        let count = self.players.len();
        let next = self.current + 1;
        if next == self.players.len() {
            self.current = 0;
            proof {
                assert((cur + 1) % n == 0) by (nonlinear_arith)
                    requires
                        cur + 1 == n,
                        n > 0,
                {}
            }
        } else {
            self.current = next;
            proof {
                assert((cur + 1) % n == cur + 1) by (nonlinear_arith)
                    requires
                        0 <= cur + 1 < n,
                {}
            }
        }
    }

    /// Judges one inbound message during the active player's turn and,
    /// for an accepted cell paint, records the color on the player's
    /// saved canvas at the remapped position.
    pub fn handle_message(&mut self, msg: &ModemUartMessages) -> (r: TurnOutcome)
        requires
            old(self).wf(),
        ensures
            final(self).wf(),
            r == turn_outcome_spec(old(self).board, old(self).spec_active(), *msg),
            final(self).players == old(self).players,
            final(self).board == old(self).board,
            final(self).current == old(self).current,
            !(r matches TurnOutcome::Accepted(_) && msg matches ModemUartMessages::SetCell(_))
                ==> final(self).boards == old(self).boards,
            msg matches ModemUartMessages::SetCell(cc) ==> r matches TurnOutcome::Accepted(_)
                ==> ({
                let active = old(self).spec_active();
                let (x, y) = remap_spec(old(self).board, None, *msg).unwrap();
                let om = old(self).boards@[active];
                let nm = final(self).boards@[active];
                &&& final(self).boards@.dom() =~= old(self).boards@.dom()
                &&& forall|k: u16|
                    final(self).boards@.contains_key(k) && k != active
                        ==> final(self).boards@[k] == old(self).boards@[k]
                &&& nm@.len() == om@.len()
                &&& forall|i: int| 0 <= i < nm@.len() && i != y - 1 ==> nm@[i] == om@[i]
                &&& nm@[y - 1]@ =~= om@[y - 1]@.update(
                    x - 1,
                    RGB { red: cc.cell.red, green: cc.cell.green, blue: cc.cell.blue },
                )
            }),
    {
        let active = self.players[self.current];
        let (src, _, _) = match msg {
            ModemUartMessages::SetCell(cc) => (cc.source, cc.cell.column, cc.cell.row),
            ModemUartMessages::SetLine(lc) => (lc.source, lc.line.column, lc.line.row),
            ModemUartMessages::SetGrid(gc) => (gc.source, gc.grid.zero_column, gc.grid.zero_row),
            _ => {
                return TurnOutcome::Ignored;
            },
        };
        if src != active {
            return TurnOutcome::OutOfTurn(src);
        }
        let (x, y) = match validate_and_remap(&self.board, None, msg) {
            Err(()) => {
                return TurnOutcome::OutOfRange;
            },
            Ok(p) => p,
        };
        match msg {
            ModemUartMessages::SetCell(cc) => {
                let rgb = RGB { red: cc.cell.red, green: cc.cell.green, blue: cc.cell.blue };
                let mut m = match self.boards.remove(&active) {
                    Some(m) => m,
                    None => {
                        proof {
                            assert(old(self).boards@.contains_key(old(self).spec_active()));
                            assert(false);
                        }
                        unreached()
                    },
                };
                m[y - 1][x - 1] = rgb;
                self.boards.insert(active, m);
                proof {
                    assert(self.boards@ =~= old(self).boards@.insert(
                        old(self).spec_active(),
                        m,
                    ));
                    assert(self.boards@.dom() =~= old(self).boards@.dom());
                }
                TurnOutcome::Accepted(
                    PaintRequest::Cell(
                        Cell { row: y, column: x, red: rgb.red, green: rgb.green, blue: rgb.blue },
                    ),
                )
            },
            ModemUartMessages::SetLine(lc) => TurnOutcome::Accepted(
                PaintRequest::Line(
                    Line {
                        row: y,
                        column: x,
                        red: lc.line.red,
                        green: lc.line.green,
                        blue: lc.line.blue,
                        direction: lc.line.direction,
                        length: lc.line.length,
                    },
                ),
            ),
            ModemUartMessages::SetGrid(gc) => TurnOutcome::Accepted(
                PaintRequest::Grid(ApiGrid { zero_row: y, zero_column: x, grid: gc.grid.grid }),
            ),
            _ => {
                proof {
                    assert(false);
                }
                unreached()
            },
        }
    }
}

// ---------------------------------------------------------------------------
// The remapping laws
// ---------------------------------------------------------------------------

/// For every paint whose sender owns partition `P` and whose 1-indexed
/// coordinates `(c, r)` satisfy `1 <= c <= 1 + (P.x.end - P.x.start)` and
/// `1 <= r <= 1 + (P.y.end - P.y.start)`, the remap yields exactly
/// `(c - 1 + P.x.start, r - 1 + P.y.start)`; any other coordinate, and any
/// unknown sender, is rejected.
pub proof fn lemma_partition_remap(board: Segment, pm: Map<u16, Segment>, msg: ModemUartMessages)
    requires
        parts_wf(pm),
        paint_coords(msg) is Some,
    ensures
        ({
            let (src, c, r) = paint_coords(msg).unwrap();
            &&& (pm.contains_key(src) && 1 <= c <= 1 + (pm[src].x.end - pm[src].x.start) && 1 <= r
                <= 1 + (pm[src].y.end - pm[src].y.start)) ==> remap_spec(board, Some(pm), msg)
                == Ok::<_, ()>((((c - 1) + pm[src].x.start) as usize, ((r - 1)
                + pm[src].y.start) as usize))
            &&& !pm.contains_key(src) ==> remap_spec(board, Some(pm), msg) == Err::<(usize, usize), _>(())
            &&& (pm.contains_key(src) && !(1 <= c <= 1 + (pm[src].x.end - pm[src].x.start) && 1
                <= r <= 1 + (pm[src].y.end - pm[src].y.start))) ==> remap_spec(
                board,
                Some(pm),
                msg,
            ) == Err::<(usize, usize), _>(())
        }),
{
}

/// In free-draw, a paint whose coordinates lie on the board maps to
/// itself, and every other paint is rejected.
pub proof fn lemma_freedraw_remap(board: Segment, msg: ModemUartMessages)
    requires
        paint_coords(msg) is Some,
    ensures
        ({
            let (src, c, r) = paint_coords(msg).unwrap();
            &&& (board.x.holds(c) && board.y.holds(r)) ==> remap_spec(board, None, msg) == Ok::<
                _,
                (),
            >((c, r))
            &&& !(board.x.holds(c) && board.y.holds(r)) ==> remap_spec(board, None, msg) == Err::<
                (usize, usize),
                _,
            >(())
        }),
{
}

/// During a turn, a paint from anyone but the active player is turned
/// away as out of turn and changes nothing; at any instant exactly one
/// player is active.
pub proof fn lemma_turn_rejects_others(board: Segment, active: u16, msg: ModemUartMessages)
    requires
        paint_coords(msg) is Some,
        paint_coords(msg).unwrap().0 != active,
    ensures
        turn_outcome_spec(board, active, msg) == TurnOutcome::OutOfTurn(
            paint_coords(msg).unwrap().0,
        ),
{
}

} // verus!
