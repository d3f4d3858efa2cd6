use entroptui::state::{
    hex_visible_bytes, view_layout, window_span, App, HilbertCursor, InputResult, KeyCode, KeyInput,
    MetricKey,
    SuggestKey, ANALYZER_COUNT, MIN_WINDOW,
};
use entroptui::view::ViewMode;

fn press(code: KeyCode) -> KeyInput {
    KeyInput { code, ctrl: false, press: true }
}

#[test]
fn clamp_offset_stops_at_end_of_file() {
    let mut app = App::new("dummy".into(), 100, 0, 10);
    app.offset = 120; // beyond len
    app.clamp_offset();
    assert!(app.offset <= 99);
}

#[test]
fn zoom_in_and_out_behavior() {
    let mut app = App::new("dummy".into(), 10000, 0, 1024);
    let original = app.window_len;
    app.zoom_in();
    assert!(app.window_len <= original);
    app.zoom_out();
    assert!(app.window_len >= original / 2);
}

#[test]
fn scroll_and_jump_updates_offset_and_dirty_flag() {
    let mut app = App::new("dummy".into(), 5000, 100, 1024);
    app.scroll_by(200);
    assert!(app.offset > 100);
    assert!(app.dirty);

    app.dirty = false;
    app.scroll_by(-400);
    assert!(app.offset < 100 + 200);
    assert!(app.dirty);
}

#[test]
fn jump_to_start_and_end() {
    let mut app = App::new("dummy".into(), 1000, 500, 256);
    app.jump_start();
    assert_eq!(app.offset, 0);
    app.jump_end();
    assert_eq!(app.offset, 999);
}

#[test]
fn view_and_analyzer_cycle_properly() {
    let mut app = App::new("dummy".into(), 10, 0, 64);
    let v0 = app.view;
    app.next_view();
    assert_ne!(app.view, v0);

    let a0 = app.analyzer_idx;
    app.next_analyzer();
    assert!(app.analyzer_idx != a0);
}

#[test]
fn mark_dirty_clears_caches() {
    let mut app = App::new("dummy".into(), 10, 0, 64);
    app.metric = Some(MetricKey { bins: 1, offset: 0, window_len: 1, analyzer_idx: 0 });
    app.suggest_cache = Some(SuggestKey {
        offset: 0,
        window_len: 1,
        view: ViewMode::Chart,
        feature_len: 1,
    });
    app.mark_dirty();
    assert!(app.dirty);
    assert!(app.metric.is_none());
    assert!(app.suggest_cache.is_none());
}

#[test]
fn new_clamps_offset_and_window() {
    let app = App::new("f".into(), 100, 500, 10);
    assert_eq!(app.offset, 100);
    assert_eq!(app.window_len, MIN_WINDOW);
    assert_eq!(app.analyzer_count, ANALYZER_COUNT);
    assert_eq!(app.view, ViewMode::Chart);
    assert!(app.dirty);
    let app = App::new("f".into(), 0, 7, 1 << 20);
    assert_eq!(app.offset, 0);
    assert_eq!(app.window_len, 1 << 20);
}

#[test]
fn clamp_on_empty_file_is_zero() {
    let mut app = App::new("f".into(), 0, 0, 10);
    app.offset = 55;
    app.clamp_offset();
    assert_eq!(app.offset, 0);
    app.jump_end();
    assert_eq!(app.offset, 0);
}

#[test]
fn zoom_limits() {
    let mut app = App::new("f".into(), 100_000, 0, 4096);
    app.zoom_in();
    assert_eq!(app.window_len, 4096);
    app.zoom_out();
    assert_eq!(app.window_len, 8192);
    app.window_len = 80_000;
    app.zoom_out();
    assert_eq!(app.window_len, 100_000);
    let mut small = App::new("f".into(), 10, 0, 4096);
    small.zoom_out();
    assert_eq!(small.window_len, 4096);
    small.window_len = u64::MAX;
    let mut big = App::new("f".into(), u64::MAX, 0, u64::MAX - 1);
    big.zoom_out();
    assert_eq!(big.window_len, u64::MAX);
}

#[test]
fn scroll_saturates_and_clamps() {
    let mut app = App::new("f".into(), 1000, 10, 4096);
    app.scroll_by(-50);
    assert_eq!(app.offset, 0);
    app.scroll_by(i64::MAX);
    assert_eq!(app.offset, 999);
    app.scroll_by(i64::MIN);
    assert_eq!(app.offset, 0);
    app.scroll_by(300);
    app.scroll_by(-300);
    assert_eq!(app.offset, 0);
    app.scroll_by(300);
    assert_eq!(app.offset, 300);
}

#[test]
fn next_view_sets_cursor_only_in_hilbert() {
    let mut app = App::new("f".into(), 10, 0, 10);
    app.next_view();
    assert_eq!(app.view, ViewMode::Hilbert);
    assert!(app.hilbert_cursor.is_some());
    app.next_view();
    assert_eq!(app.view, ViewMode::Hex);
    assert!(app.hilbert_cursor.is_none());
}

#[test]
fn analyzer_wraps_around() {
    let mut app = App::new("f".into(), 10, 0, 10);
    for _ in 0..ANALYZER_COUNT {
        app.next_analyzer();
    }
    assert_eq!(app.analyzer_idx, 0);
    app.analyzer_count = 0;
    app.next_analyzer();
    assert_eq!(app.analyzer_idx, 0);
}

#[test]
fn keys_drive_the_state() {
    let mut app = App::new("f".into(), 100_000, 50_000, 8192);
    app.hex_page_bytes = 256;
    assert_eq!(app.handle_key(press(KeyCode::Char('q'))), InputResult::Break);
    assert_eq!(app.handle_key(press(KeyCode::Esc)), InputResult::Break);
    assert_eq!(
        app.handle_key(KeyInput { code: KeyCode::Char('c'), ctrl: true, press: true }),
        InputResult::Break
    );
    assert_eq!(
        app.handle_key(KeyInput { code: KeyCode::Char('v'), ctrl: false, press: false }),
        InputResult::Continue
    );
    assert_eq!(app.view, ViewMode::Chart);
    assert_eq!(app.handle_key(press(KeyCode::Char('v'))), InputResult::Proceed);
    assert_eq!(app.view, ViewMode::Hilbert);
    app.handle_key(press(KeyCode::Char('c')));
    assert_eq!(app.analyzer_idx, 1);
    app.handle_key(press(KeyCode::Right));
    assert_eq!(app.offset, 50_256);
    app.handle_key(press(KeyCode::Left));
    assert_eq!(app.offset, 50_000);
    app.handle_key(press(KeyCode::PageDown));
    assert_eq!(app.offset, 58_192);
    app.handle_key(press(KeyCode::PageUp));
    assert_eq!(app.offset, 50_000);
    app.handle_key(press(KeyCode::Char('+')));
    assert_eq!(app.window_len, 4096);
    app.handle_key(press(KeyCode::Char('-')));
    assert_eq!(app.window_len, 8192);
    app.handle_key(press(KeyCode::Char('=')));
    assert_eq!(app.window_len, 4096);
    app.handle_key(press(KeyCode::End));
    assert_eq!(app.offset, 99_999);
    app.handle_key(press(KeyCode::Home));
    assert_eq!(app.offset, 0);
    app.hex_page_bytes = 0;
    app.handle_key(press(KeyCode::Right));
    assert_eq!(app.offset, 1);
    app.dirty = false;
    assert_eq!(app.handle_key(press(KeyCode::Char('x'))), InputResult::Proceed);
    assert!(!app.dirty);
}

#[test]
fn bucket_key_cycles_entropy_widths() {
    let mut app = App::new("f".into(), 100_000, 0, 8192);
    app.metric = Some(app.metric_key(40));
    assert_eq!(app.handle_key(press(KeyCode::Char('b'))), InputResult::Proceed);
    assert_eq!(app.analyzer_idx, 1);
    assert!(app.metric.is_none());
    app.handle_key(press(KeyCode::Char('b')));
    assert_eq!(app.analyzer_idx, 2);
    app.handle_key(press(KeyCode::Char('b')));
    assert_eq!(app.analyzer_idx, 0);
    app.analyzer_idx = 4;
    app.handle_key(press(KeyCode::Char('b')));
    assert_eq!(app.analyzer_idx, 0);
    app.analyzer_count = 2;
    app.analyzer_idx = 1;
    app.handle_key(press(KeyCode::Char('b')));
    assert_eq!(app.analyzer_idx, 1);
}

#[test]
fn page_keys_with_huge_steps() {
    let mut app = App::new("f".into(), 10, 0, u64::MAX);
    app.handle_key(press(KeyCode::PageDown));
    assert_eq!(app.offset, 9);
    app.handle_key(press(KeyCode::PageUp));
    assert_eq!(app.offset, 0);
    app.hex_page_bytes = 1u64 << 63;
    app.handle_key(press(KeyCode::Right));
    assert_eq!(app.offset, 9);
    app.handle_key(press(KeyCode::Left));
    assert_eq!(app.offset, 0);
    app.scroll_forward(4);
    assert_eq!(app.offset, 4);
    app.scroll_back(3);
    assert_eq!(app.offset, 1);
    app.scroll_back(u64::MAX);
    assert_eq!(app.offset, 0);
}

#[test]
fn window_span_cases() {
    assert_eq!(window_span(0, 5, 10), None);
    assert_eq!(window_span(6, 0, 3), Some((0, 3)));
    assert_eq!(window_span(6, 1000, 10), Some((5, 1)));
    assert_eq!(window_span(6, 2, 10), Some((2, 4)));
}

#[test]
fn layout_and_hex_page() {
    assert_eq!(view_layout(40, 20), (16, 38));
    assert_eq!(view_layout(3, 3), (1, 10));
    assert_eq!(view_layout(100, 66), (64, 98));
    assert_eq!(view_layout(0, 0), (0, 10));
    assert_eq!(hex_visible_bytes(12), 160);
    assert_eq!(hex_visible_bytes(1), 0);
}

#[test]
fn cache_keys_and_needs() {
    let mut app = App::new("f".into(), 100, 0, 4096);
    assert!(app.needs_metric(40));
    app.metric = Some(app.metric_key(40));
    assert!(!app.needs_metric(40));
    assert!(app.needs_metric(41));
    assert!(app.needs_chart(40));
    app.chart = Some(app.metric_key(40));
    assert!(!app.needs_chart(40));
    assert!(app.needs_hilbert(16));
    app.hilbert = Some(app.hilbert_key(16));
    assert!(!app.needs_hilbert(16));
    app.next_analyzer();
    assert!(app.needs_metric(40));
    assert!(app.needs_hilbert(16));
    assert!(app.needs_chart(40));
    assert_eq!(App::analysis_bins(2), 4);
    assert_eq!(App::analysis_bins(40), 40);
}

#[test]
fn suggestions_follow_view_and_page() {
    let mut app = App::new("f".into(), 100, 0, 4096);
    app.window_data = vec![7u8; 100];
    assert!(!app.needs_suggestions());
    app.metric = Some(app.metric_key(10));
    assert!(app.needs_suggestions());
    assert_eq!(app.feature_len(), 100);
    app.suggest_cache = Some(app.suggest_key());
    assert!(!app.needs_suggestions());
    app.view = ViewMode::Hex;
    app.hex_page_bytes = 32;
    assert_eq!(app.feature_len(), 32);
    assert!(app.needs_suggestions());
    app.hex_page_bytes = 0;
    assert_eq!(app.feature_len(), 1);
    app.hex_page_bytes = 1000;
    assert_eq!(app.feature_len(), 100);
}

#[test]
fn hilbert_cursor_moves_and_jumps() {
    let mut app = App::new("f".into(), 100_000, 50_000, 8192);
    // Outside the Hilbert view the cursor keys do nothing.
    app.handle_key(press(KeyCode::Char('l')));
    assert_eq!(app.hilbert_cursor, None);
    app.handle_key(press(KeyCode::Enter));
    assert_eq!(app.offset, 50_000);
    assert_eq!(app.view, ViewMode::Chart);

    app.handle_key(press(KeyCode::Char('v')));
    assert_eq!(app.view, ViewMode::Hilbert);
    assert_eq!(app.hilbert_cursor, Some(HilbertCursor { x: 0, y: 0 }));
    // No map on screen yet: the cursor stays.
    app.handle_key(press(KeyCode::Char('l')));
    assert_eq!(app.hilbert_cursor, Some(HilbertCursor { x: 0, y: 0 }));

    app.hilbert = Some(app.hilbert_key(4));
    app.window_data = vec![0u8; 8192];
    app.handle_key(press(KeyCode::Char('h')));
    app.handle_key(press(KeyCode::Char('k')));
    assert_eq!(app.hilbert_cursor, Some(HilbertCursor { x: 0, y: 0 }));
    assert_eq!(app.hilbert_cursor_range(), Some((50_000, 50_512)));
    for _ in 0..5 {
        app.handle_key(press(KeyCode::Char('l')));
    }
    app.handle_key(press(KeyCode::Char('j')));
    assert_eq!(app.hilbert_cursor, Some(HilbertCursor { x: 3, y: 1 }));
    // Cell (3, 1) is distance 12 of 16 along the curve: bytes 6144..6656.
    assert_eq!(app.hilbert_cursor_range(), Some((56_144, 56_656)));

    app.dirty = false;
    assert_eq!(app.handle_key(press(KeyCode::Enter)), InputResult::Proceed);
    assert_eq!(app.offset, 56_144);
    assert_eq!(app.view, ViewMode::Hex);
    assert!(app.dirty);
    assert_eq!(app.hilbert_cursor_range(), None);
}

#[test]
fn hilbert_cursor_on_a_short_window() {
    let mut app = App::new("f".into(), 10, 0, 8192);
    app.next_view();
    app.hilbert = Some(app.hilbert_key(4));
    app.window_data = vec![1u8; 10];
    app.move_hilbert_cursor(3, 3);
    assert_eq!(app.hilbert_cursor, Some(HilbertCursor { x: 3, y: 3 }));
    // Cell (3, 3) is distance 10: one byte per cell, and byte 10 is past the end.
    assert_eq!(app.hilbert_cursor_range(), None);
    app.move_hilbert_cursor(-3, -3);
    assert_eq!(app.hilbert_cursor_range(), Some((0, 1)));
    app.move_hilbert_cursor(0, 1);
    // Cell (0, 1) is distance 3.
    assert_eq!(app.hilbert_cursor_range(), Some((3, 4)));
}
