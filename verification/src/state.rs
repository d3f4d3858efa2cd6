//! Navigation state of the viewer: window position and size, view and
//! analyzer selection, cache validity, and the keyboard commands.
use vstd::prelude::*;

use crate::bins::{bin_range, bin_range_at};
use crate::hilbert::{
    best_pow2_side, first_distance, grid_side, hilbert_d2xy, hilbert_distance_of, is_pow2,
    lemma_d2xy_bijective, lemma_first_distance_of_cell,
};
use crate::view::{next_view, ViewMode};

verus! {

/// Smallest analysis window, in bytes.
pub const MIN_WINDOW: u64 = 4096;

/// Number of analyzers the viewer cycles through (entropy over 1, 2 and 4
/// byte symbols, spectral flatness, bit-plane entropy).
pub const ANALYZER_COUNT: usize = 5;

/// The first analyzers are the entropy analyzers over 1, 2 and 4 byte
/// symbols, in that order; this many of them.
pub const ENTROPY_ANALYZERS: usize = 3;

/// Cursor cell on the Hilbert map.
#[derive(Copy, Clone, Debug, PartialEq, Eq, Structural)]
pub struct HilbertCursor {
    pub x: u16,
    pub y: u16,
}

/// What a cached chart or metric series was computed for.
#[derive(Copy, Clone, Debug, PartialEq, Eq, Structural)]
pub struct MetricKey {
    pub bins: u16,
    pub offset: u64,
    pub window_len: u64,
    pub analyzer_idx: usize,
}

/// What a cached Hilbert map was computed for.
#[derive(Copy, Clone, Debug, PartialEq, Eq, Structural)]
pub struct HilbertKey {
    pub side: u16,
    pub offset: u64,
    pub window_len: u64,
    pub analyzer_idx: usize,
}

/// What cached suggestions were computed for.
#[derive(Copy, Clone, Debug, PartialEq, Eq, Structural)]
pub struct SuggestKey {
    pub offset: u64,
    pub window_len: u64,
    pub view: ViewMode,
    pub feature_len: u64,
}

/// The keys the viewer reacts to.
#[derive(Copy, Clone, Debug, PartialEq, Eq, Structural)]
pub enum KeyCode {
    Char(char),
    Esc,
    Left,
    Right,
    PageUp,
    PageDown,
    Enter,
    Home,
    End,
    Other,
}

/// A key event: the key, whether Control was held, and whether it is a
/// press (as opposed to a repeat or release).
#[derive(Copy, Clone, Debug, PartialEq, Eq, Structural)]
pub struct KeyInput {
    pub code: KeyCode,
    pub ctrl: bool,
    pub press: bool,
}

/// What the event loop does after a key.
#[derive(Copy, Clone, Debug, PartialEq, Eq, Structural)]
pub enum InputResult {
    /// Skip the rest of this round and redraw.
    Continue,
    /// Leave the viewer.
    Break,
    /// Go on with the round (refresh the window if it is dirty).
    Proceed,
}

/// The viewer's state, without the file and the computed values.
pub struct App {
    pub path: String,
    pub file_len: u64,
    pub offset: u64,
    pub window_len: u64,
    pub view: ViewMode,
    /// Bytes shown on one page of the hex viewer.
    pub hex_page_bytes: u64,
    /// The bytes of the current window.
    pub window_data: Vec<u8>,
    pub analyzer_count: usize,
    pub analyzer_idx: usize,
    pub hilbert_cursor: Option<HilbertCursor>,
    /// Key of the metric series in use, `None` when it must be recomputed.
    pub metric: Option<MetricKey>,
    pub chart: Option<MetricKey>,
    pub hilbert: Option<HilbertKey>,
    pub suggest_cache: Option<SuggestKey>,
    pub status: String,
    /// The window must be read again.
    pub dirty: bool,
}

pub open spec fn min_u64(a: u64, b: u64) -> u64 {
    if a <= b {
        a
    } else {
        b
    }
}

pub open spec fn max_u64(a: u64, b: u64) -> u64 {
    if a >= b {
        a
    } else {
        b
    }
}

/// The offset moved back into the file: 0 for an empty file, otherwise at
/// most the last byte.
pub open spec fn clamped_offset(offset: u64, file_len: u64) -> u64 {
    if file_len == 0 {
        0
    } else {
        min_u64(offset, (file_len - 1) as u64)
    }
}

/// `2 * w`, saturating at `u64::MAX`.
pub open spec fn double_sat(w: u64) -> u64 {
    if 2 * w > u64::MAX {
        u64::MAX
    } else {
        (2 * w) as u64
    }
}

/// Offset after moving `delta` bytes from `offset`, saturating at both ends of
/// `u64` (before clamping to the file).
pub open spec fn moved_offset(offset: u64, delta: i64) -> u64 {
    if delta < 0 {
        if offset + delta < 0 {
            0
        } else {
            (offset + delta) as u64
        }
    } else if offset + delta > u64::MAX {
        u64::MAX
    } else {
        (offset + delta) as u64
    }
}

/// `offset + n`, saturating at `u64::MAX`.
pub open spec fn add_sat(offset: u64, n: u64) -> u64 {
    if offset + n > u64::MAX {
        u64::MAX
    } else {
        (offset + n) as u64
    }
}

/// `offset - n`, saturating at 0.
pub open spec fn sub_sat(offset: u64, n: u64) -> u64 {
    if offset >= n {
        (offset - n) as u64
    } else {
        0
    }
}

/// The scroll step for a page of `len` bytes: at least one byte.
pub open spec fn page_step(len: u64) -> u64 {
    max_u64(1, len)
}

/// The key `k` can be handled in state `a`.
pub open spec fn key_ok(a: App, k: KeyInput) -> bool {
    k.press ==> match k.code {
        KeyCode::Char(c) => c == 'c' && !k.ctrl ==> a.analyzer_count == 0 || a.analyzer_idx
            < usize::MAX,
        _ => true,
    }
}

/// `a` after `mark_dirty`.
pub open spec fn dirtied(a: App) -> App {
    App { dirty: true, suggest_cache: None, metric: None, ..a }
}

/// `a` with offset `off`, clamped to the file, then marked dirty.
pub open spec fn moved_to(a: App, off: u64) -> App {
    dirtied(App { offset: clamped_offset(off, a.file_len), ..a })
}

/// `a` after `scroll_by(delta)`.
pub open spec fn scrolled(a: App, delta: i64) -> App {
    moved_to(a, moved_offset(a.offset, delta))
}

/// `a` after `scroll_forward(n)`.
pub open spec fn scrolled_forward(a: App, n: u64) -> App {
    moved_to(a, add_sat(a.offset, n))
}

/// `a` after `scroll_back(n)`.
pub open spec fn scrolled_back(a: App, n: u64) -> App {
    moved_to(a, sub_sat(a.offset, n))
}

/// The entropy analyzer that follows analyzer `idx` in the cycle of symbol
/// widths 1 → 2 → 4 → 1 (analyzers 0, 1 and 2); from any other analyzer the
/// cycle starts at the first.
pub open spec fn next_bucket_idx(idx: usize) -> usize {
    if idx == 0 {
        1
    } else if idx == 1 {
        2
    } else {
        0
    }
}

/// `a` after `next_bucket`: nothing changes with fewer than
/// `ENTROPY_ANALYZERS` analyzers.
pub open spec fn bucket_advanced(a: App) -> App {
    if a.analyzer_count < ENTROPY_ANALYZERS {
        a
    } else {
        App { analyzer_idx: next_bucket_idx(a.analyzer_idx), metric: None, hilbert: None, ..a }
    }
}

/// Coordinate `v` moved by `delta` and kept inside `0..side`.
pub open spec fn clamp_coord(v: u16, delta: int, side: u16) -> u16 {
    if v + delta < 0 {
        0
    } else if v + delta >= side {
        (side - 1) as u16
    } else {
        (v + delta) as u16
    }
}

/// `a` after `move_hilbert_cursor(dx, dy)`: in the Hilbert view, with a
/// cursor and a map on screen, the cursor moves by `(dx, dy)` and stays on
/// the map; otherwise nothing changes.
pub open spec fn cursor_moved(a: App, dx: int, dy: int) -> App {
    if a.view == ViewMode::Hilbert && a.hilbert_cursor is Some && a.hilbert is Some
        && a.hilbert->0.side >= 1 {
        let c = a.hilbert_cursor->0;
        let n = a.hilbert->0.side;
        App {
            hilbert_cursor: Some(
                HilbertCursor { x: clamp_coord(c.x, dx, n), y: clamp_coord(c.y, dy, n) },
            ),
            ..a
        }
    } else {
        a
    }
}

/// Window positions `[start, end)` of the bytes drawn in row-major cell
/// `cell` of the Hilbert map of a window of `len` bytes: the bin, among
/// `side * side` bins, of the first distance along the curve that reaches
/// the cell.
pub open spec fn cell_bytes(side: u16, cell: usize, len: int) -> Option<(int, int)> {
    match first_distance(side, cell) {
        Some(d) => bin_range(len, grid_side(side) * grid_side(side), d),
        None => None,
    }
}

/// File offsets `[start, end)` of the bytes drawn in the cursor cell of the
/// Hilbert map: the map's cells split the window into `side * side` bins
/// taken in curve order, and the cursor cell shows the bin whose distance
/// along the curve reaches it. `None` outside the Hilbert view, without a
/// cursor or a map, with the cursor off the map, or when the cell's bin is
/// empty.
pub open spec fn cursor_range(a: App) -> Option<(u64, u64)> {
    if a.view == ViewMode::Hilbert && a.hilbert_cursor is Some && a.hilbert is Some {
        let c = a.hilbert_cursor->0;
        let side = a.hilbert->0.side;
        let n = grid_side(side);
        if c.x < n && c.y < n {
            match cell_bytes(side, (c.y * n + c.x) as usize, a.window_data@.len() as int) {
                Some((start, end)) => Some(
                    (add_sat(a.offset, start as u64), add_sat(a.offset, end as u64)),
                ),
                None => None,
            }
        } else {
            None
        }
    } else {
        None
    }
}

/// `a` after Enter: where the cursor cell has bytes, the offset jumps to its
/// first byte (kept on a byte of the file), the hex view is shown and the
/// window is marked for re-reading; otherwise nothing changes.
pub open spec fn cursor_jumped(a: App) -> App {
    match cursor_range(a) {
        Some((start, _)) => App { view: ViewMode::Hex, ..moved_to(a, start) },
        None => a,
    }
}

/// `a` after `next_analyzer`.
pub open spec fn analyzer_advanced(a: App) -> App {
    if a.analyzer_count == 0 {
        a
    } else {
        App {
            analyzer_idx: ((a.analyzer_idx + 1) % (a.analyzer_count as int)) as usize,
            metric: None,
            hilbert: None,
            ..a
        }
    }
}

/// `a` after `next_view`.
pub open spec fn view_advanced(a: App) -> App {
    let v = next_view(a.view);
    App {
        view: v,
        suggest_cache: None,
        hilbert_cursor: if v == ViewMode::Hilbert {
            Some(HilbertCursor { x: 0, y: 0 })
        } else {
            None
        },
        ..a
    }
}

/// `a` after `zoom_in`.
pub open spec fn zoomed_in(a: App) -> App {
    dirtied(App { window_len: max_u64(MIN_WINDOW, (a.window_len / 2) as u64), ..a })
}

/// `a` after `zoom_out`.
pub open spec fn zoomed_out(a: App) -> App {
    dirtied(
        App { window_len: min_u64(max_u64(MIN_WINDOW, a.file_len), double_sat(a.window_len)), ..a },
    )
}

/// `a` after `jump_end`.
pub open spec fn at_end(a: App) -> App {
    dirtied(
        App {
            offset: if a.file_len == 0 {
                0
            } else {
                (a.file_len - 1) as u64
            },
            ..a
        },
    )
}

/// State and loop decision after key `k` in state `a`.
pub open spec fn after_key(a: App, k: KeyInput) -> (App, InputResult) {
    if !k.press {
        (a, InputResult::Continue)
    } else {
        match k.code {
            KeyCode::Esc => (a, InputResult::Break),
            KeyCode::Char(c) => if c == 'q' || (c == 'c' && k.ctrl) {
                (a, InputResult::Break)
            } else if c == 'v' {
                (view_advanced(a), InputResult::Proceed)
            } else if c == 'c' {
                (analyzer_advanced(a), InputResult::Proceed)
            } else if c == 'b' {
                (bucket_advanced(a), InputResult::Proceed)
            } else if c == 'h' {
                (cursor_moved(a, -1, 0), InputResult::Proceed)
            } else if c == 'l' {
                (cursor_moved(a, 1, 0), InputResult::Proceed)
            } else if c == 'k' {
                (cursor_moved(a, 0, -1), InputResult::Proceed)
            } else if c == 'j' {
                (cursor_moved(a, 0, 1), InputResult::Proceed)
            } else if c == '+' || c == '=' {
                (zoomed_in(a), InputResult::Proceed)
            } else if c == '-' {
                (zoomed_out(a), InputResult::Proceed)
            } else {
                (a, InputResult::Proceed)
            },
            KeyCode::Left => (
                scrolled_back(a, page_step(a.hex_page_bytes)),
                InputResult::Proceed,
            ),
            KeyCode::Right => (
                scrolled_forward(a, page_step(a.hex_page_bytes)),
                InputResult::Proceed,
            ),
            KeyCode::PageUp => (scrolled_back(a, page_step(a.window_len)), InputResult::Proceed),
            KeyCode::PageDown => (
                scrolled_forward(a, page_step(a.window_len)),
                InputResult::Proceed,
            ),
            KeyCode::Enter => (cursor_jumped(a), InputResult::Proceed),
            KeyCode::Home => (moved_to(a, 0), InputResult::Proceed),
            KeyCode::End => (at_end(a), InputResult::Proceed),
            _ => (a, InputResult::Proceed),
        }
    }
}

fn min_of(a: u64, b: u64) -> (r: u64)
    ensures
        r == min_u64(a, b),
{
    if a <= b {
        a
    } else {
        b
    }
}

proof fn lemma_cell_index(x: int, y: int, n: int)
    requires
        0 <= x < n,
        0 <= y < n,
        n <= 65535,
    ensures
        0 <= y * n + x < n * n,
        n * n <= 65535 * 65535,
{
    assert(y * n + x < n * n) by (nonlinear_arith)
        requires
            x < n,
            0 <= y < n,
    ;
    assert(0 <= y * n) by (nonlinear_arith)
        requires
            0 <= y,
            0 <= n,
    ;
    assert(n * n <= 65535 * 65535) by (nonlinear_arith)
        requires
            0 <= n <= 65535,
    ;
}

fn cell_index_exec(x: u16, y: u16, n: usize) -> (r: usize)
    requires
        x < n,
        y < n,
        n <= 65535,
    ensures
        r == y * n + x,
{
    proof {
        lemma_cell_index(x as int, y as int, n as int);
    }
    y as usize * n + x as usize
}

/// The bytes of the window drawn in row-major cell `cell`.
fn cell_byte_range(side: u16, cell: usize, len: usize) -> (r: Option<(usize, usize)>)
    ensures
        cell_bytes(side, cell, len as int) is None ==> r is None,
        cell_bytes(side, cell, len as int) matches Some((a, b)) ==> r == Some(
            (a as usize, b as usize),
        ) && 0 <= a < b <= len,
{
    let n: usize = if side < 2 {
        2
    } else {
        side as usize
    };
    proof {
        lemma_cell_index(0, 0, n as int);
    }
    let d = match hilbert_distance_of(side, cell) {
        Some(d) => d,
        None => return None,
    };
    bin_range_at(len, n * n, d)
}

fn add_sat_exec(a: u64, b: u64) -> (r: u64)
    ensures
        r == add_sat(a, b),
{
    if a <= u64::MAX - b {
        a + b
    } else {
        u64::MAX
    }
}

fn clamp_coord_exec(v: u16, delta: i8, side: u16) -> (r: u16)
    requires
        side >= 1,
    ensures
        r == clamp_coord(v, delta as int, side),
{
    let t: i32 = v as i32 + delta as i32;
    if t < 0 {
        0
    } else if t >= side as i32 {
        side - 1
    } else {
        t as u16
    }
}

fn max_of(a: u64, b: u64) -> (r: u64)
    ensures
        r == max_u64(a, b),
{
    if a >= b {
        a
    } else {
        b
    }
}

impl App {
    /// A viewer on a file of `file_len` bytes: offset clamped to the file
    /// length, window at least `MIN_WINDOW` bytes, chart view, first of the
    /// `ANALYZER_COUNT` analyzers, nothing computed yet, window to be read.
    pub fn new(path: String, file_len: u64, offset: u64, window_len: u64) -> (a: App)
        ensures
            a.path == path,
            a.file_len == file_len,
            a.offset == min_u64(offset, file_len),
            a.window_len == max_u64(MIN_WINDOW, window_len),
            a.view == ViewMode::Chart,
            a.hex_page_bytes == 0,
            a.window_data@.len() == 0,
            a.analyzer_count == ANALYZER_COUNT,
            a.analyzer_idx == 0,
            a.hilbert_cursor is None,
            a.metric is None,
            a.chart is None,
            a.hilbert is None,
            a.suggest_cache is None,
            a.status@.len() == 0,
            a.dirty,
    {
        App {
            path,
            file_len,
            offset: min_of(offset, file_len),
            window_len: max_of(MIN_WINDOW, window_len),
            view: ViewMode::Chart,
            hex_page_bytes: 0,
            window_data: Vec::new(),
            analyzer_count: ANALYZER_COUNT,
            analyzer_idx: 0,
            hilbert_cursor: None,
            metric: None,
            chart: None,
            hilbert: None,
            suggest_cache: None,
            status: String::new(),
            dirty: true,
        }
    }

    /// Moves the offset back into the file.
    pub fn clamp_offset(&mut self)
        ensures
            *final(self) == (App { offset: clamped_offset(old(self).offset, old(self).file_len), ..*old(self) }),
    {
        if self.file_len == 0 {
            self.offset = 0;
            return;
        }
        self.offset = min_of(self.offset, self.file_len - 1);
    }

    /// Marks the window for re-reading and drops the metric and suggestions.
    pub fn mark_dirty(&mut self)
        ensures
            *final(self) == dirtied(*old(self)),
    {
        self.dirty = true;
        self.suggest_cache = None;
        self.metric = None;
    }

    /// Selects the next analyzer (cyclically) and drops the values computed
    /// with the previous one.
    pub fn next_analyzer(&mut self)
        requires
            old(self).analyzer_count == 0 || old(self).analyzer_idx < usize::MAX,
        ensures
            *final(self) == analyzer_advanced(*old(self)),
    {
        if self.analyzer_count == 0 {
            return;
        }
        self.analyzer_idx = (self.analyzer_idx + 1) % self.analyzer_count;
        self.metric = None;
        self.hilbert = None;
    }

    /// Selects the next view; the Hilbert cursor starts at the origin when the
    /// Hilbert view is entered and is dropped when it is left.
    pub fn next_view(&mut self)
        ensures
            *final(self) == view_advanced(*old(self)),
    {
        self.view = self.view.next();
        self.suggest_cache = None;
        if self.view == ViewMode::Hilbert {
            self.hilbert_cursor = Some(HilbertCursor { x: 0, y: 0 });
        } else {
            self.hilbert_cursor = None;
        }
    }

    /// Halves the window, down to `MIN_WINDOW`.
    pub fn zoom_in(&mut self)
        ensures
            *final(self) == zoomed_in(*old(self)),
    {
        self.window_len = max_of(MIN_WINDOW, self.window_len / 2);
        self.mark_dirty();
    }

    /// Doubles the window, up to the file length (or `MIN_WINDOW` for small
    /// files).
    pub fn zoom_out(&mut self)
        ensures
            *final(self) == zoomed_out(*old(self)),
    {
        let max_len = max_of(MIN_WINDOW, self.file_len);
        let doubled = if self.window_len > u64::MAX / 2 {
            u64::MAX
        } else {
            self.window_len * 2
        };
        self.window_len = min_of(max_len, doubled);
        self.mark_dirty();
    }

    /// Moves the offset by `delta` bytes (saturating), then back into the file.
    pub fn scroll_by(&mut self, delta: i64)
        ensures
            *final(self) == scrolled(*old(self), delta),
    {
        let new_off = if delta < 0 {
            let back: u64 = (0i128 - delta as i128) as u64;
            if self.offset >= back {
                self.offset - back
            } else {
                0
            }
        } else {
            let fwd = delta as u64;
            if self.offset <= u64::MAX - fwd {
                self.offset + fwd
            } else {
                u64::MAX
            }
        };
        self.offset = new_off;
        self.clamp_offset();
        self.mark_dirty();
    }

    /// Moves the offset forward by `n` bytes (saturating), then back into
    /// the file.
    pub fn scroll_forward(&mut self, n: u64)
        ensures
            *final(self) == scrolled_forward(*old(self), n),
    {
        self.offset = if self.offset <= u64::MAX - n {
            self.offset + n
        } else {
            u64::MAX
        };
        self.clamp_offset();
        self.mark_dirty();
    }

    /// Moves the offset back by `n` bytes, stopping at 0.
    pub fn scroll_back(&mut self, n: u64)
        ensures
            *final(self) == scrolled_back(*old(self), n),
    {
        self.offset = if self.offset >= n {
            self.offset - n
        } else {
            0
        };
        self.clamp_offset();
        self.mark_dirty();
    }

    /// Selects the entropy analyzer with the next symbol width (1 → 2 → 4 →
    /// 1 bytes) and drops the values computed with the previous analyzer.
    pub fn next_bucket(&mut self)
        ensures
            *final(self) == bucket_advanced(*old(self)),
    {
        if self.analyzer_count < ENTROPY_ANALYZERS {
            return;
        }
        self.analyzer_idx = if self.analyzer_idx == 0 {
            1
        } else if self.analyzer_idx == 1 {
            2
        } else {
            0
        };
        self.metric = None;
        self.hilbert = None;
    }

    /// Moves the Hilbert cursor by `(dx, dy)` cells, staying on the map; only
    /// in the Hilbert view, with a cursor and a map on screen.
    pub fn move_hilbert_cursor(&mut self, dx: i8, dy: i8)
        ensures
            *final(self) == cursor_moved(*old(self), dx as int, dy as int),
    {
        if self.view != ViewMode::Hilbert {
            return;
        }
        let (c, side) = match (self.hilbert_cursor, self.hilbert) {
            (Some(c), Some(k)) => (c, k.side),
            _ => return,
        };
        if side < 1 {
            return;
        }
        self.hilbert_cursor = Some(
            HilbertCursor { x: clamp_coord_exec(c.x, dx, side), y: clamp_coord_exec(c.y, dy, side) },
        );
    }

    /// File offsets `[start, end)` of the bytes drawn in the cursor cell of
    /// the Hilbert map, if it has any.
    pub fn hilbert_cursor_range(&self) -> (r: Option<(u64, u64)>)
        ensures
            r == cursor_range(*self),
    {
        if self.view != ViewMode::Hilbert {
            return None;
        }
        let (c, side) = match (self.hilbert_cursor, self.hilbert) {
            (Some(c), Some(k)) => (c, k.side),
            _ => return None,
        };
        let n: usize = if side < 2 {
            2
        } else {
            side as usize
        };
        if c.x as usize >= n || c.y as usize >= n {
            return None;
        }
        let cell: usize = cell_index_exec(c.x, c.y, n);
        match cell_byte_range(side, cell, self.window_data.len()) {
            Some((start, end)) => Some(
                (add_sat_exec(self.offset, start as u64), add_sat_exec(self.offset, end as u64)),
            ),
            None => None,
        }
    }

    /// Jumps to the first byte of the Hilbert cursor cell and shows it in the
    /// hex view; nothing happens when the cell has no bytes.
    pub fn jump_to_cursor(&mut self)
        ensures
            *final(self) == cursor_jumped(*old(self)),
    {
        if let Some((start, _)) = self.hilbert_cursor_range() {
            self.offset = start;
            self.clamp_offset();
            self.mark_dirty();
            self.view = ViewMode::Hex;
        }
    }

    /// Jumps to the start of the file.
    pub fn jump_start(&mut self)
        ensures
            *final(self) == moved_to(*old(self), 0),
    {
        self.offset = 0;
        self.mark_dirty();
    }

    /// Jumps to the last byte of the file.
    pub fn jump_end(&mut self)
        ensures
            *final(self) == at_end(*old(self)),
    {
        if self.file_len == 0 {
            self.offset = 0;
        } else {
            self.offset = self.file_len - 1;
        }
        self.mark_dirty();
    }

    /// Applies key `k`: quit on q, Esc or Ctrl+C; v cycles the view; c cycles
    /// the analyzer; b cycles the entropy symbol width; h, j, k and l move the
    /// Hilbert cursor, Enter jumps to its cell in the hex view; + or = zooms in, - zooms out; ←/→ scroll by a hex page,
    /// PgUp/PgDn by a window; Home/End jump to the ends of the file. Keys
    /// other than presses are skipped.
    pub fn handle_key(&mut self, k: KeyInput) -> (r: InputResult)
        requires
            key_ok(*old(self), k),
        ensures
            (*final(self), r) == after_key(*old(self), k),
    {
        if !k.press {
            return InputResult::Continue;
        }
        match k.code {
            KeyCode::Esc => InputResult::Break,
            KeyCode::Char(c) => {
                if c == 'q' || (c == 'c' && k.ctrl) {
                    InputResult::Break
                } else if c == 'v' {
                    self.next_view();
                    InputResult::Proceed
                } else if c == 'c' {
                    self.next_analyzer();
                    InputResult::Proceed
                } else if c == 'b' {
                    self.next_bucket();
                    InputResult::Proceed
                } else if c == 'h' {
                    self.move_hilbert_cursor(-1, 0);
                    InputResult::Proceed
                } else if c == 'l' {
                    self.move_hilbert_cursor(1, 0);
                    InputResult::Proceed
                } else if c == 'k' {
                    self.move_hilbert_cursor(0, -1);
                    InputResult::Proceed
                } else if c == 'j' {
                    self.move_hilbert_cursor(0, 1);
                    InputResult::Proceed
                } else if c == '+' || c == '=' {
                    self.zoom_in();
                    InputResult::Proceed
                } else if c == '-' {
                    self.zoom_out();
                    InputResult::Proceed
                } else {
                    InputResult::Proceed
                }
            },
            KeyCode::Left => {
                self.scroll_back(max_of(1, self.hex_page_bytes));
                InputResult::Proceed
            },
            KeyCode::Right => {
                self.scroll_forward(max_of(1, self.hex_page_bytes));
                InputResult::Proceed
            },
            KeyCode::PageUp => {
                self.scroll_back(max_of(1, self.window_len));
                InputResult::Proceed
            },
            KeyCode::PageDown => {
                self.scroll_forward(max_of(1, self.window_len));
                InputResult::Proceed
            },
            KeyCode::Enter => {
                self.jump_to_cursor();
                InputResult::Proceed
            },
            KeyCode::Home => {
                self.jump_start();
                InputResult::Proceed
            },
            KeyCode::End => {
                self.jump_end();
                InputResult::Proceed
            },
            _ => InputResult::Proceed,
        }
    }

    /// Bins used for the metric series and the chart: at least 4.
    pub fn analysis_bins(bins: u16) -> (r: usize)
        ensures
            r == if bins < 4 {
                4
            } else {
                bins as int
            },
    {
        if bins < 4 {
            4
        } else {
            bins as usize
        }
    }

    /// The key the metric series or chart must have for `bins` bins in the
    /// current state.
    pub fn metric_key(&self, bins: u16) -> (r: MetricKey)
        ensures
            r == (MetricKey {
                bins,
                offset: self.offset,
                window_len: self.window_len,
                analyzer_idx: self.analyzer_idx,
            }),
    {
        MetricKey {
            bins,
            offset: self.offset,
            window_len: self.window_len,
            analyzer_idx: self.analyzer_idx,
        }
    }

    /// The metric series must be computed: none is cached, or it was computed
    /// for other bins, another window or another analyzer.
    pub fn needs_metric(&self, bins: u16) -> (r: bool)
        ensures
            r == (self.metric != Some(self.metric_key_spec(bins))),
    {
        match self.metric {
            None => true,
            Some(k) => k.bins != bins || k.offset != self.offset || k.window_len != self.window_len
                || k.analyzer_idx != self.analyzer_idx,
        }
    }

    /// The chart must be computed: none is cached, or it was computed for
    /// other bins, another window or another analyzer.
    pub fn needs_chart(&self, bins: u16) -> (r: bool)
        ensures
            r == (self.chart != Some(self.metric_key_spec(bins))),
    {
        match self.chart {
            None => true,
            Some(k) => k.bins != bins || k.offset != self.offset || k.window_len != self.window_len
                || k.analyzer_idx != self.analyzer_idx,
        }
    }

    pub open spec fn metric_key_spec(&self, bins: u16) -> MetricKey {
        MetricKey {
            bins,
            offset: self.offset,
            window_len: self.window_len,
            analyzer_idx: self.analyzer_idx,
        }
    }

    pub open spec fn hilbert_key_spec(&self, side: u16) -> HilbertKey {
        HilbertKey {
            side,
            offset: self.offset,
            window_len: self.window_len,
            analyzer_idx: self.analyzer_idx,
        }
    }

    /// The key the Hilbert map must have for a `side × side` grid.
    pub fn hilbert_key(&self, side: u16) -> (r: HilbertKey)
        ensures
            r == self.hilbert_key_spec(side),
    {
        HilbertKey {
            side,
            offset: self.offset,
            window_len: self.window_len,
            analyzer_idx: self.analyzer_idx,
        }
    }

    /// The Hilbert map must be computed: none is cached, or it was computed
    /// for another side, another window or another analyzer.
    pub fn needs_hilbert(&self, side: u16) -> (r: bool)
        ensures
            r == (self.hilbert != Some(self.hilbert_key_spec(side))),
    {
        match self.hilbert {
            None => true,
            Some(k) => k.side != side || k.offset != self.offset || k.window_len != self.window_len
                || k.analyzer_idx != self.analyzer_idx,
        }
    }

    pub open spec fn feature_len_spec(&self) -> int {
        if self.view == ViewMode::Hex {
            let page = if (self.hex_page_bytes as usize) < 1 {
                1
            } else {
                self.hex_page_bytes as usize as int
            };
            if self.window_data@.len() < page {
                self.window_data@.len() as int
            } else {
                page
            }
        } else {
            self.window_data@.len() as int
        }
    }

    /// Number of leading window bytes the suggestions look at: in the hex
    /// view, the bytes visible on one hex page (at least one); otherwise the
    /// whole window.
    pub fn feature_len(&self) -> (r: usize)
        ensures
            r == self.feature_len_spec(),
            r <= self.window_data@.len(),
    {
        if self.view == ViewMode::Hex {
            let page = #[verifier::truncate] (self.hex_page_bytes as usize);
            let page = if page < 1 {
                1
            } else {
                page
            };
            if self.window_data.len() < page {
                self.window_data.len()
            } else {
                page
            }
        } else {
            self.window_data.len()
        }
    }

    pub open spec fn suggest_key_spec(&self) -> SuggestKey {
        SuggestKey {
            offset: self.offset,
            window_len: self.window_len,
            view: self.view,
            feature_len: self.feature_len_spec() as u64,
        }
    }

    /// The key the suggestions must have in the current state.
    pub fn suggest_key(&self) -> (r: SuggestKey)
        ensures
            r == self.suggest_key_spec(),
    {
        let n = self.feature_len();
        SuggestKey {
            offset: self.offset,
            window_len: self.window_len,
            view: self.view,
            feature_len: n as u64,
        }
    }

    /// Suggestions must be computed: a metric series is available, and no
    /// suggestions are cached or they were computed for another window,
    /// view or feature length.
    pub fn needs_suggestions(&self) -> (r: bool)
        ensures
            r == (self.metric is Some && self.suggest_cache != Some(self.suggest_key_spec())),
    {
        if self.metric.is_none() {
            return false;
        }
        let key = self.suggest_key();
        match self.suggest_cache {
            None => true,
            Some(c) => c.offset != key.offset || c.window_len != key.window_len || c.view != key.view
                || c.feature_len != key.feature_len,
        }
    }
}


/// The part of the file to read for a window: its start (the offset, moved
/// back onto the last byte if needed) and its length (the window length,
/// cut at the end of the file); `None` for an empty file.
pub fn window_span(file_len: u64, offset: u64, window_len: u64) -> (r: Option<(u64, u64)>)
    ensures
        file_len == 0 <==> r is None,
        r matches Some((start, len)) ==> {
            &&& start == min_u64(offset, (file_len - 1) as u64)
            &&& len == min_u64(window_len, (file_len - start) as u64)
            &&& start + len <= file_len
        },
{
    if file_len == 0 {
        return None;
    }
    let start = min_of(offset, file_len - 1);
    let len = min_of(window_len, file_len - start);
    Some((start, len))
}

/// Side of the Hilbert grid and number of chart bins for a frame of
/// `width × height` cells: the grid is the largest power-of-two square that
/// fits inside a border (0 when nothing fits); the chart has one bin per inner
/// column, at least 10.
pub fn view_layout(width: u16, height: u16) -> (r: (u16, u16))
    ensures
        ({
            let inner_w = if width >= 2 {
                width - 2
            } else {
                0
            };
            let inner_h = if height >= 2 {
                height - 2
            } else {
                0
            };
            let m = if inner_w <= inner_h {
                inner_w
            } else {
                inner_h
            };
            &&& m == 0 ==> r.0 == 0
            &&& m >= 1 ==> is_pow2(r.0 as int) && r.0 <= m < 2 * r.0
            &&& r.1 == if inner_w < 10 {
                10
            } else {
                inner_w
            }
        }),
{
    let inner_w: u16 = if width >= 2 {
        width - 2
    } else {
        0
    };
    let inner_h: u16 = if height >= 2 {
        height - 2
    } else {
        0
    };
    let m = if inner_w <= inner_h {
        inner_w
    } else {
        inner_h
    };
    let side = best_pow2_side(m);
    let bins = if inner_w < 10 {
        10
    } else {
        inner_w
    };
    (side, bins)
}

/// Bytes shown by a hex viewer whose frame is `height` rows high: 16 per row
/// inside the border.
pub fn hex_visible_bytes(height: u16) -> (r: usize)
    ensures
        r == 16 * (if height >= 2 {
            height - 2
        } else {
            0
        }),
{
    let rows: usize = if height >= 2 {
        (height - 2) as usize
    } else {
        0
    };
    rows * 16
}

/// The navigation state is well formed: the window is at least
/// `MIN_WINDOW` bytes, the analyzer index is in range, and the offset is
/// within the file.
pub open spec fn nav_wf(a: App) -> bool {
    &&& a.window_len >= MIN_WINDOW
    &&& (a.analyzer_count == 0 || a.analyzer_idx < a.analyzer_count)
    &&& a.offset <= a.file_len
}

/// A new viewer is well formed.
pub proof fn lemma_new_wf(a: App, offset: u64, window_len: u64)
    requires
        a.offset == min_u64(offset, a.file_len),
        a.window_len == max_u64(MIN_WINDOW, window_len),
        a.analyzer_count == ANALYZER_COUNT,
        a.analyzer_idx == 0,
    ensures
        nav_wf(a),
{
}

/// Every key keeps the state well formed, and every key that moves the
/// offset leaves it on a byte of the file (or at 0 for an empty file).
pub proof fn lemma_keys_keep_wf(a: App, k: KeyInput)
    requires
        nav_wf(a),
        key_ok(a, k),
    ensures
        nav_wf(after_key(a, k).0),
        after_key(a, k).0.offset != a.offset ==> after_key(a, k).0.offset == clamped_offset(
            after_key(a, k).0.offset,
            a.file_len,
        ),
{
}

/// Scrolling forward by `n` bytes leaves the offset on `offset + n`, or on
/// the last byte of the file when that lies beyond it; scrolling back by `n`
/// bytes leaves it on `offset - n`, or on 0 when that lies before the start.
pub proof fn lemma_scroll_offsets(a: App, n: u64)
    requires
        a.file_len > 0,
        a.offset < a.file_len,
    ensures
        scrolled_forward(a, n).offset == if a.offset + n < a.file_len {
            a.offset + n
        } else {
            a.file_len - 1
        },
        scrolled_back(a, n).offset == if a.offset >= n {
            a.offset - n
        } else {
            0
        },
{
}

/// Scrolling forward by `n` bytes and back by `n` bytes returns to the
/// starting offset when the forward move stays inside the file.
pub proof fn lemma_scroll_round_trip(a: App, n: u64)
    requires
        a.offset + n < a.file_len,
    ensures
        scrolled_back(scrolled_forward(a, n), n).offset == a.offset,
        scrolled_back(scrolled_forward(a, n), n).dirty,
{
}

/// Scrolling back by `n` bytes and forward by `n` bytes returns to the
/// starting offset when the backward move does not pass the start of the
/// file and the offset is inside the file.
pub proof fn lemma_scroll_back_round_trip(a: App, n: u64)
    requires
        a.offset >= n,
        a.offset < a.file_len,
    ensures
        scrolled_forward(scrolled_back(a, n), n).offset == a.offset,
{
}

/// Among the entropy analyzers, the symbol width key moves to another one
/// each time and comes back to the starting analyzer after three presses.
pub proof fn lemma_bucket_cycle(a: App)
    requires
        a.analyzer_count >= ENTROPY_ANALYZERS,
        a.analyzer_idx < ENTROPY_ANALYZERS,
    ensures
        bucket_advanced(a).analyzer_idx != a.analyzer_idx,
        bucket_advanced(a).analyzer_idx < ENTROPY_ANALYZERS,
        bucket_advanced(bucket_advanced(bucket_advanced(a))).analyzer_idx == a.analyzer_idx,
{
}

/// Zooming in never enlarges a window of at least `MIN_WINDOW` bytes, and
/// zooming back out yields at least half the original window whenever half
/// the window fits in the zoom-out limit.
pub proof fn lemma_zoom_in_out(a: App)
    requires
        a.window_len >= MIN_WINDOW,
    ensures
        zoomed_in(a).window_len <= a.window_len,
        a.window_len / 2 <= max_u64(MIN_WINDOW, a.file_len) ==> zoomed_out(zoomed_in(a)).window_len
            >= a.window_len / 2,
{
}

/// With more than one analyzer, selecting the next one always changes the
/// selection and keeps it in range.
pub proof fn lemma_next_analyzer_changes(a: App)
    requires
        a.analyzer_count > 1,
        a.analyzer_idx < a.analyzer_count,
    ensures
        analyzer_advanced(a).analyzer_idx != a.analyzer_idx,
        analyzer_advanced(a).analyzer_idx < a.analyzer_count,
{
    let n = a.analyzer_count as int;
    let i = a.analyzer_idx as int;
    if i + 1 < n {
        assert((i + 1) % n == i + 1) by (nonlinear_arith)
            requires
                0 <= i + 1 < n,
        ;
    } else {
        assert((i + 1) % n == 0) by (nonlinear_arith)
            requires
                i + 1 == n,
                n > 1,
        ;
    }
}

/// In the Hilbert view with a cursor and a map, moving the cursor keeps it
/// on the map.
pub proof fn lemma_cursor_stays_on_map(a: App, dx: int, dy: int)
    requires
        a.view == ViewMode::Hilbert,
        a.hilbert_cursor is Some,
        a.hilbert is Some,
        a.hilbert->0.side >= 1,
    ensures
        cursor_moved(a, dx, dy).hilbert_cursor is Some,
        cursor_moved(a, dx, dy).hilbert_cursor->0.x < a.hilbert->0.side,
        cursor_moved(a, dx, dy).hilbert_cursor->0.y < a.hilbert->0.side,
{
}

/// Enter on a cursor cell with bytes jumps to the first of them when it lies
/// in the file, and shows the hex view.
pub proof fn lemma_jump_lands_on_cell(a: App)
    requires
        cursor_range(a) is Some,
        (cursor_range(a)->0).0 < a.file_len,
    ensures
        cursor_jumped(a).offset == (cursor_range(a)->0).0,
        cursor_jumped(a).view == ViewMode::Hex,
        cursor_jumped(a).dirty,
{
}

/// A press of the character key `c`, with or without Control.
pub open spec fn char_key(c: char, ctrl: bool) -> KeyInput {
    KeyInput { code: KeyCode::Char(c), ctrl, press: true }
}

/// A press of key `code` without Control.
pub open spec fn key_press(code: KeyCode) -> KeyInput {
    KeyInput { code, ctrl: false, press: true }
}

/// q, Esc and Ctrl+C leave the viewer without touching the state; a key
/// event that is not a press is skipped.
pub proof fn lemma_quit_keys(a: App, ctrl: bool, k: KeyInput)
    ensures
        after_key(a, char_key('q', ctrl)) == (a, InputResult::Break),
        after_key(a, key_press(KeyCode::Esc)) == (a, InputResult::Break),
        after_key(a, char_key('c', true)) == (a, InputResult::Break),
        !k.press ==> after_key(a, k) == (a, InputResult::Continue),
{
}

/// In the Hilbert view, with the cursor on a map of `side × side` cells, h,
/// l, k and j move the cursor one cell left, right, up and down; at the edge
/// of the map it stays. Nothing else changes. Outside the Hilbert view the
/// four keys change nothing.
pub proof fn lemma_cursor_keys(a: App, ctrl: bool, x: u16, y: u16, side: u16)
    requires
        a.hilbert_cursor == Some(HilbertCursor { x, y }),
        a.hilbert matches Some(m) && m.side == side,
        x < side,
        y < side,
    ensures
        a.view == ViewMode::Hilbert ==> after_key(a, char_key('k', ctrl)) == (
            App {
                hilbert_cursor: Some(
                    HilbertCursor {
                        x,
                        y: if y > 0 {
                            (y - 1) as u16
                        } else {
                            0
                        },
                    },
                ),
                ..a
            },
            InputResult::Proceed,
        ),
        a.view == ViewMode::Hilbert ==> after_key(a, char_key('j', ctrl)) == (
            App {
                hilbert_cursor: Some(
                    HilbertCursor {
                        x,
                        y: if y + 1 < side {
                            (y + 1) as u16
                        } else {
                            y
                        },
                    },
                ),
                ..a
            },
            InputResult::Proceed,
        ),
        a.view == ViewMode::Hilbert ==> after_key(a, char_key('h', ctrl)) == (
            App {
                hilbert_cursor: Some(
                    HilbertCursor {
                        x: if x > 0 {
                            (x - 1) as u16
                        } else {
                            0
                        },
                        y,
                    },
                ),
                ..a
            },
            InputResult::Proceed,
        ),
        a.view == ViewMode::Hilbert ==> after_key(a, char_key('l', ctrl)) == (
            App {
                hilbert_cursor: Some(
                    HilbertCursor {
                        x: if x + 1 < side {
                            (x + 1) as u16
                        } else {
                            x
                        },
                        y,
                    },
                ),
                ..a
            },
            InputResult::Proceed,
        ),
        a.view != ViewMode::Hilbert ==> after_key(a, char_key('k', ctrl)) == (a, InputResult::Proceed),
        a.view != ViewMode::Hilbert ==> after_key(a, char_key('j', ctrl)) == (a, InputResult::Proceed),
        a.view != ViewMode::Hilbert ==> after_key(a, char_key('h', ctrl)) == (a, InputResult::Proceed),
        a.view != ViewMode::Hilbert ==> after_key(a, char_key('l', ctrl)) == (a, InputResult::Proceed),
{
}

/// + and = halve the window, but not below 4096 bytes; - doubles it, but not
/// beyond the file length (or 4096 bytes for a smaller file) nor beyond
/// `u64::MAX`. Either marks the window for re-reading and keeps the offset.
pub proof fn lemma_zoom_keys(a: App, ctrl: bool)
    ensures
        after_key(a, char_key('+', ctrl)).0.window_len == if a.window_len / 2 >= 4096 {
            a.window_len / 2
        } else {
            4096
        },
        after_key(a, char_key('=', ctrl)).0.window_len == if a.window_len / 2 >= 4096 {
            a.window_len / 2
        } else {
            4096
        },
        a.window_len >= 8192 ==> 2 * after_key(a, char_key('+', ctrl)).0.window_len <= a.window_len
            <= 2 * after_key(a, char_key('+', ctrl)).0.window_len + 1,
        after_key(a, char_key('+', ctrl)).0.offset == a.offset,
        after_key(a, char_key('+', ctrl)).0.dirty,
        after_key(a, char_key('+', ctrl)).1 == InputResult::Proceed,
        ({
            let cap = if a.file_len > 4096 {
                a.file_len as int
            } else {
                4096
            };
            let doubled = if 2 * a.window_len > u64::MAX {
                u64::MAX as int
            } else {
                2 * a.window_len
            };
            after_key(a, char_key('-', ctrl)).0.window_len == if doubled < cap {
                doubled
            } else {
                cap
            }
        }),
        after_key(a, char_key('-', ctrl)).0.offset == a.offset,
        after_key(a, char_key('-', ctrl)).0.dirty,
        after_key(a, char_key('-', ctrl)).1 == InputResult::Proceed,
{
}

/// → and PageDown move the offset forward by one hex page and one window
/// (at least one byte), ← and PageUp back by as much; the offset stops at
/// the last byte of the file and at 0. Home goes to 0 and End to the last
/// byte. Each marks the window for re-reading and keeps the window length.
pub proof fn lemma_scroll_keys(a: App)
    requires
        a.file_len > 0,
        a.offset < a.file_len,
    ensures
        ({
            let page = if a.hex_page_bytes == 0 {
                1
            } else {
                a.hex_page_bytes as int
            };
            let win = if a.window_len == 0 {
                1
            } else {
                a.window_len as int
            };
            let last = a.file_len - 1;
            &&& after_key(a, key_press(KeyCode::Right)).0.offset == if a.offset + page <= last {
                a.offset + page
            } else {
                last
            }
            &&& after_key(a, key_press(KeyCode::Left)).0.offset == if a.offset >= page {
                a.offset - page
            } else {
                0
            }
            &&& after_key(a, key_press(KeyCode::PageDown)).0.offset == if a.offset + win <= last {
                a.offset + win
            } else {
                last
            }
            &&& after_key(a, key_press(KeyCode::PageUp)).0.offset == if a.offset >= win {
                a.offset - win
            } else {
                0
            }
            &&& after_key(a, key_press(KeyCode::Home)).0.offset == 0
            &&& after_key(a, key_press(KeyCode::End)).0.offset == last
        }),
        after_key(a, key_press(KeyCode::Right)).0.dirty,
        after_key(a, key_press(KeyCode::Left)).0.dirty,
        after_key(a, key_press(KeyCode::PageDown)).0.dirty,
        after_key(a, key_press(KeyCode::PageUp)).0.dirty,
        after_key(a, key_press(KeyCode::Home)).0.dirty,
        after_key(a, key_press(KeyCode::End)).0.dirty,
        after_key(a, key_press(KeyCode::PageDown)).0.window_len == a.window_len,
        after_key(a, key_press(KeyCode::Right)).0.window_len == a.window_len,
{
}

/// v shows the next view of the cycle Chart → Hilbert → Hex → Chart, puts
/// the cursor at the origin when the Hilbert view is entered and drops it
/// otherwise; the position in the file does not change.
pub proof fn lemma_view_key(a: App, ctrl: bool)
    ensures
        ({
            let b = after_key(a, char_key('v', ctrl)).0;
            &&& a.view == ViewMode::Chart ==> b.view == ViewMode::Hilbert && b.hilbert_cursor
                == Some(HilbertCursor { x: 0, y: 0 })
            &&& a.view == ViewMode::Hilbert ==> b.view == ViewMode::Hex && b.hilbert_cursor is None
            &&& a.view == ViewMode::Hex ==> b.view == ViewMode::Chart && b.hilbert_cursor is None
            &&& b.offset == a.offset
            &&& b.window_len == a.window_len
            &&& b.analyzer_idx == a.analyzer_idx
        }),
        after_key(a, char_key('v', ctrl)).1 == InputResult::Proceed,
{
}

/// c selects the next analyzer, wrapping to the first after the last; b
/// steps through the entropy analyzers over 1, 2 and 4 byte symbols
/// (analyzers 0, 1, 2) and wraps to the first, and from any other analyzer
/// goes to the first. Both drop the metric series and the Hilbert map
/// computed with the previous analyzer.
pub proof fn lemma_analyzer_keys(a: App, ctrl: bool)
    requires
        a.analyzer_count >= 3,
        a.analyzer_idx < a.analyzer_count,
    ensures
        after_key(a, char_key('c', false)).0.analyzer_idx == if a.analyzer_idx + 1
            == a.analyzer_count {
            0int
        } else {
            a.analyzer_idx + 1
        },
        after_key(a, char_key('c', false)).0.metric is None,
        after_key(a, char_key('c', false)).0.hilbert is None,
        after_key(a, char_key('c', false)).0.offset == a.offset,
        after_key(a, char_key('b', ctrl)).0.analyzer_idx == if a.analyzer_idx == 0 {
            1usize
        } else if a.analyzer_idx == 1 {
            2usize
        } else {
            0usize
        },
        after_key(a, char_key('b', ctrl)).0.metric is None,
        after_key(a, char_key('b', ctrl)).0.hilbert is None,
        after_key(a, char_key('b', ctrl)).0.offset == a.offset,
{
    let n = a.analyzer_count as int;
    let i = a.analyzer_idx as int;
    if i + 1 < n {
        assert((i + 1) % n == i + 1) by (nonlinear_arith)
            requires
                0 <= i + 1 < n,
        ;
    } else {
        assert((i + 1) % n == 0) by (nonlinear_arith)
            requires
                i + 1 == n,
                n > 1,
        ;
    }
}

/// The Hilbert map of a window of `len` bytes on a `side × side` grid (side
/// a power of two, `len` at least one byte per cell) splits the window into
/// `side * side` runs of `len / (side * side)` bytes, the last run taking
/// the rest, and draws run `d` in the cell that distance `d` along the curve
/// reaches. With the cursor on that cell, Enter moves the offset to the
/// first byte of run `d`, shows the hex view and marks the window for
/// re-reading.
pub proof fn lemma_enter_jumps_to_cell(a: App, side: u16, d: int)
    requires
        a.view == ViewMode::Hilbert,
        a.hilbert matches Some(m) && m.side == side,
        side >= 2,
        is_pow2(side as int),
        0 <= d < side * side,
        a.hilbert_cursor == Some(
            HilbertCursor {
                x: hilbert_d2xy(side as int, d).0 as u16,
                y: hilbert_d2xy(side as int, d).1 as u16,
            },
        ),
        a.window_data@.len() >= side * side,
        a.offset + a.window_data@.len() <= a.file_len,
    ensures
        ({
            let len = a.window_data@.len() as int;
            let run = len / (side * side);
            let start = a.offset + d * run;
            let end = if d == side * side - 1 {
                a.offset + len
            } else {
                a.offset + (d + 1) * run
            };
            &&& cursor_range(a) == Some((start as u64, end as u64))
            &&& after_key(a, key_press(KeyCode::Enter)) == (
                App {
                    view: ViewMode::Hex,
                    offset: start as u64,
                    dirty: true,
                    suggest_cache: None,
                    metric: None,
                    ..a
                },
                InputResult::Proceed,
            )
        }),
{
    let n = side as int;
    let cells = n * n;
    let len = a.window_data@.len() as int;
    lemma_d2xy_bijective(n, d, d, 0, 0);
    let (x, y) = hilbert_d2xy(n, d);
    assert((x as u16) as int == x && (y as u16) as int == y);
    lemma_first_distance_of_cell(side, d);
    let run = len / cells;
    assert(cells >= 4) by (nonlinear_arith)
        requires
            n >= 2,
            cells == n * n,
    ;
    assert(run >= 1 && run * cells <= len) by (nonlinear_arith)
        requires
            len >= cells,
            cells >= 4,
            run == len / cells,
    ;
    assert(d * run + run <= len) by (nonlinear_arith)
        requires
            0 <= d < cells,
            run >= 1,
            run * cells <= len,
    ;
    assert((d + 1) * run == d * run + run) by (nonlinear_arith);
    assert(0 <= d * run) by (nonlinear_arith)
        requires
            0 <= d,
            run >= 1,
    ;
    assert(bin_range(len, cells, d) == if d == cells - 1 {
        Some((d * run, len))
    } else {
        Some((d * run, d * run + run))
    });
}

} // verus!
