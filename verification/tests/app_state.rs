use hexerator::app::{App, CursorViewStatus};

fn status(cursor: usize, start: usize, rows: usize, cols: usize) -> CursorViewStatus {
    App::cursor_view_status(cursor, start, rows, cols)
}

#[test]
fn new_app_defaults() {
    let app = App::new(b"dir/file.bin".to_vec(), vec![1, 2, 3]);
    assert_eq!(app.rows, 67);
    assert_eq!(app.cols, 48);
    assert_eq!(app.max_visible_cols, 75);
    assert_eq!(app.path, b"dir/file.bin".to_vec());
    assert!(!app.dirty);
    assert_eq!(app.data, vec![1, 2, 3]);
    assert!(!app.show_debug_panel);
    assert_eq!(app.col_width, 26);
    assert_eq!(app.cursor, 0);
    assert_eq!(app.starting_offset, 0);
    assert_eq!(app.top_gap, 30);
    assert_eq!(app.view_x, 0);
    assert_eq!(app.view_y, -30);
    assert_eq!(app.scroll_speed, 4);
    assert!(app.colorize);
    assert_eq!(app.cursor_prev_frame, 0);
    assert_eq!(app.row_height, 16);
    assert!(app.show_text);
    assert_eq!(app.hex_edit_half_digit, None);
    assert!(app.u8_buf.is_empty());
    assert_eq!(app.selection, None);
    assert_eq!(app.select_begin, None);
    assert!(app.fill_text.is_empty());
    assert!(app.log.is_empty());
    assert_eq!(app.backup_path, b"dir/file.bin.hexerator_bak".to_vec());
}

#[test]
fn reload_and_save_clear_dirty() {
    let mut app = App::new(b"f".to_vec(), vec![1]);
    app.dirty = true;
    app.reload(vec![4, 5]);
    assert_eq!(app.data, vec![4, 5]);
    assert!(!app.dirty);
    app.dirty = true;
    app.save();
    assert!(!app.dirty);
    assert_eq!(app.data, vec![4, 5]);
}

#[test]
fn toggle_debug_twice_restores() {
    let mut app = App::new(b"f".to_vec(), vec![]);
    app.toggle_debug();
    assert!(app.show_debug_panel);
    app.toggle_debug();
    assert!(!app.show_debug_panel);
}

#[test]
fn ascii_offset_follows_hex_columns() {
    let mut app = App::new(b"f".to_vec(), vec![]);
    assert_eq!(app.ascii_display_x_offset(), 48 * 26 + 12);
    app.cols = 0;
    assert_eq!(app.ascii_display_x_offset(), 12);
    app.cols = 16;
    app.col_width = 255;
    assert_eq!(app.ascii_display_x_offset(), 16 * 255 + 12);
}

#[test]
fn cursor_view_status_cases() {
    assert!(matches!(status(99, 100, 10, 10), CursorViewStatus::Before));
    assert!(matches!(status(100, 100, 10, 10), CursorViewStatus::Inside));
    assert!(matches!(status(200, 100, 10, 10), CursorViewStatus::Inside));
    assert!(matches!(status(201, 100, 10, 10), CursorViewStatus::After));
    assert!(matches!(status(0, 0, 0, 0), CursorViewStatus::Inside));
}

#[test]
fn search_focus_before_scrolls_back() {
    let (mut c, mut s) = (5usize, 100usize);
    App::search_focus(&mut c, &mut s, 50, 10, 4);
    assert_eq!(c, 50);
    assert_eq!(s, 50 - 9 * 3);
    assert!(matches!(status(c, s, 10, 4), CursorViewStatus::Inside));
}

#[test]
fn search_focus_before_saturates_at_zero() {
    let (mut c, mut s) = (0usize, 100usize);
    App::search_focus(&mut c, &mut s, 10, 67, 48);
    assert_eq!(c, 10);
    assert_eq!(s, 0);
    assert!(matches!(status(c, s, 67, 48), CursorViewStatus::Inside));
}

#[test]
fn search_focus_after_scrolls_forward() {
    let (mut c, mut s) = (0usize, 0usize);
    App::search_focus(&mut c, &mut s, 5000, 67, 48);
    assert_eq!(c, 5000);
    assert_eq!(s, 5000 - (67 + 48));
    assert!(matches!(status(c, s, 67, 48), CursorViewStatus::Inside));
}

#[test]
fn search_focus_after_with_one_row_leaves_result_after_view() {
    // With a single row the view holds fewer than rows + cols bytes.
    let (mut c, mut s) = (0usize, 0usize);
    App::search_focus(&mut c, &mut s, 100, 1, 4);
    assert_eq!(s, 95);
    assert!(!matches!(status(c, s, 1, 4), CursorViewStatus::Before));
    assert!(matches!(status(c, s, 1, 4), CursorViewStatus::After));
}

#[test]
fn search_focus_inside_keeps_view() {
    let (mut c, mut s) = (0usize, 10usize);
    App::search_focus(&mut c, &mut s, 20, 10, 10);
    assert_eq!(c, 20);
    assert_eq!(s, 10);
}
