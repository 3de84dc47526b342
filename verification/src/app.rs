use vstd::prelude::*;

use crate::plugin_api::{inclusive_range_ok, splice, HexeratorHandle};
use crate::text::owned;

verus! {

/// Where the cursor stands relative to the visible part of the document.
pub enum CursorViewStatus {
    Inside,
    Before,
    After,
}

/// Where `cursor` stands relative to the view that starts at `starting_offset` and shows
/// `rows * cols` bytes past it.
pub open spec fn view_status(
    cursor: usize,
    starting_offset: usize,
    rows: usize,
    cols: usize,
) -> CursorViewStatus {
    if cursor < starting_offset {
        CursorViewStatus::Before
    } else if cursor > starting_offset + rows * cols {
        CursorViewStatus::After
    } else {
        CursorViewStatus::Inside
    }
}

/// Whether the view arithmetic of `cursor_view_status` stays within `usize`.
pub open spec fn view_status_fits(
    cursor: usize,
    starting_offset: usize,
    rows: usize,
    cols: usize,
) -> bool {
    cursor >= starting_offset ==> starting_offset + rows * cols <= usize::MAX
}

/// Whether focusing the offset `off` stays within `usize` and does not underflow.
pub open spec fn search_focus_fits(
    starting_offset: usize,
    off: usize,
    rows: usize,
    cols: usize,
) -> bool {
    &&& view_status_fits(off, starting_offset, rows, cols)
    &&& view_status(off, starting_offset, rows, cols) is Before ==> {
        &&& rows >= 1
        &&& cols >= 1
        &&& (rows - 1) * (cols - 1) <= usize::MAX
    }
    &&& view_status(off, starting_offset, rows, cols) is After ==> {
        &&& rows + cols <= usize::MAX
        &&& off >= rows + cols
    }
}

/// The start of the view once the offset `off` has been focused.
pub open spec fn focus_start(starting_offset: usize, off: usize, rows: usize, cols: usize) -> int {
    match view_status(off, starting_offset, rows, cols) {
        CursorViewStatus::Before => if off >= (rows - 1) * (cols - 1) {
            off - (rows - 1) * (cols - 1)
        } else {
            0
        },
        CursorViewStatus::After => off - (rows + cols),
        CursorViewStatus::Inside => starting_offset as int,
    }
}

/// The hexerator application state: the document and how it is shown.
pub struct App {
    pub rows: usize,
    /// Number of columns in the view
    pub cols: usize,
    /// Maximum number of visible hex columns that can be shown on screen.
    /// ascii is double this amount.
    pub max_visible_cols: usize,
    /// Path to the file we're editing, as the bytes of the OS path
    pub path: Vec<u8>,
    pub dirty: bool,
    pub data: Vec<u8>,
    pub show_debug_panel: bool,
    pub col_width: u8,
    /// The editing byte offset
    pub cursor: usize,
    /// The byte offset in the data from which the view starts viewing data from
    pub starting_offset: usize,
    /// The top part where the top panel is
    pub top_gap: i64,
    /// The x pixel offset of the scrollable view
    pub view_x: i64,
    /// The y pixel offset of the scrollable view
    pub view_y: i64,
    /// The amount scrolled per frame in view mode
    pub scroll_speed: i64,
    pub colorize: bool,
    /// The value of the cursor on the previous frame. Used to determine when the cursor changes
    pub cursor_prev_frame: usize,
    pub row_height: u8,
    pub show_text: bool,
    /// The half digit when the user begins to type into a hex view
    pub hex_edit_half_digit: Option<u8>,
    pub u8_buf: String,
    /// The selected bytes, as an inclusive range of offsets
    pub selection: Option<(usize, usize)>,
    pub select_begin: Option<usize>,
    pub fill_text: String,
    /// The lines that plugins wrote to the debug log and the host has not yet shown
    pub log: Vec<String>,
    /// Where a backup of the file goes: its path followed by `.hexerator_bak`
    pub backup_path: Vec<u8>,
}

/// The state with the debug panel shown if it was hidden, hidden if it was shown.
pub open spec fn toggled_debug(a: App) -> App {
    App { show_debug_panel: !a.show_debug_panel, ..a }
}

/// Toggling the debug panel twice leaves the state as it was.
pub proof fn lemma_toggle_debug_twice(a: App)
    ensures
        toggled_debug(toggled_debug(a)) == a,
{
}

/// A column count taken as `i64` the way `as` does it: values past `i64::MAX` wrap around.
pub open spec fn cols_as_i64(cols: usize) -> i64 {
    #[verifier::truncate] (cols as i64)
}

/// The suffix that names a backup file.
pub open spec fn backup_suffix() -> Seq<u8> {
    seq![
        0x2eu8, 0x68u8, 0x65u8, 0x78u8, 0x65u8, 0x72u8, 0x61u8,
        0x74u8, 0x6fu8, 0x72u8, 0x5fu8, 0x62u8, 0x61u8, 0x6bu8,
    ]
}

impl App {
    /// The state of a freshly opened document `data` read from `path`.
    pub fn new(path: Vec<u8>, data: Vec<u8>) -> (r: App)
        ensures
            r.rows == 67,
            r.cols == 48,
            r.max_visible_cols == 75,
            r.path@ == path@,
            !r.dirty,
            r.data@ == data@,
            !r.show_debug_panel,
            r.col_width == 26,
            r.cursor == 0,
            r.starting_offset == 0,
            r.top_gap == 30,
            r.view_x == 0,
            r.view_y == -30,
            r.scroll_speed == 4,
            r.colorize,
            r.cursor_prev_frame == 0,
            r.row_height == 16,
            r.show_text,
            r.hex_edit_half_digit is None,
            r.u8_buf@.len() == 0,
            r.selection is None,
            r.select_begin is None,
            r.fill_text@.len() == 0,
            r.log@.len() == 0,
            r.backup_path@ == path@ + backup_suffix(),
    {
        let top_gap: i64 = 30;
        let cursor: usize = 0;
        let mut backup_path = path.clone();
        let suffix: Vec<u8> = vec![
            0x2eu8, 0x68u8, 0x65u8, 0x78u8, 0x65u8, 0x72u8, 0x61u8,
            0x74u8, 0x6fu8, 0x72u8, 0x5fu8, 0x62u8, 0x61u8, 0x6bu8,
        ];
        let mut k: usize = 0;
        while k < suffix.len()
            invariant
                k <= suffix@.len(),
                suffix@ == backup_suffix(),
                backup_path@ == path@ + suffix@.take(k as int),
            decreases suffix@.len() - k,
        {
            assert(suffix@.take(k + 1) =~= suffix@.take(k as int).push(suffix@[k as int]));
            backup_path.push(suffix[k]);
            k += 1;
        }
        assert(suffix@.take(suffix@.len() as int) =~= suffix@);
        App {
            rows: 67,
            cols: 48,
            max_visible_cols: 75,
            path,
            dirty: false,
            data,
            show_debug_panel: false,
            col_width: 26,
            cursor,
            starting_offset: 0,
            top_gap,
            view_x: 0,
            view_y: -top_gap,
            scroll_speed: 4,
            colorize: true,
            cursor_prev_frame: cursor,
            row_height: 16,
            show_text: true,
            hex_edit_half_digit: None,
            u8_buf: String::new(),
            selection: None,
            select_begin: None,
            fill_text: String::new(),
            log: Vec::new(),
            backup_path,
        }
    }

    /// Takes in `data`, freshly read from the document's file, as the document.
    pub fn reload(&mut self, data: Vec<u8>)
        ensures
            *final(self) == (App { data, dirty: false, ..*old(self) }),
    {
        self.data = data;
        self.dirty = false;
    }

    /// Marks the document as saved, once its bytes have been written to its file.
    pub fn save(&mut self)
        ensures
            *final(self) == (App { dirty: false, ..*old(self) }),
    {
        self.dirty = false;
    }

    /// Shows the debug panel if it was hidden, hides it if it was shown.
    pub fn toggle_debug(&mut self)
        ensures
            *final(self) == toggled_debug(*old(self)),
    {
        self.show_debug_panel = !self.show_debug_panel;
    }

    /// The x offset at which the text column starts: right of the hex columns, plus a gap.
    pub fn ascii_display_x_offset(&self) -> (r: i64)
        requires
            i64::MIN <= cols_as_i64(self.cols) * (self.col_width as i64) <= i64::MAX - 12,
        ensures
            r == cols_as_i64(self.cols) * (self.col_width as i64) + 12,
    {
        let c = #[verifier::truncate] (self.cols as i64);
        let w = self.col_width as i64;
        c * w + 12
    }

    /// Where `cursor` stands relative to the view that starts at `starting_offset` and
    /// shows `rows` rows of `cols` bytes.
    pub fn cursor_view_status(
        cursor: usize,
        starting_offset: usize,
        rows: usize,
        cols: usize,
    ) -> (r: CursorViewStatus)
        requires
            view_status_fits(cursor, starting_offset, rows, cols),
        ensures
            r == view_status(cursor, starting_offset, rows, cols),
    {
        if cursor < starting_offset {
            CursorViewStatus::Before
        } else if cursor > starting_offset + rows * cols {
            CursorViewStatus::After
        } else {
            CursorViewStatus::Inside
        }
    }

    /// Moves the cursor to the search result `off` and scrolls the view so that it shows it.
    pub fn search_focus(
        cursor: &mut usize,
        starting_offset: &mut usize,
        off: usize,
        rows: usize,
        cols: usize,
    )
        requires
            search_focus_fits(*old(starting_offset), off, rows, cols),
        ensures
            *final(cursor) == off,
            *final(starting_offset) == focus_start(*old(starting_offset), off, rows, cols),
    {
        *cursor = off;
        match Self::cursor_view_status(*cursor, *starting_offset, rows, cols) {
            CursorViewStatus::Before => {
                *starting_offset = off.saturating_sub((rows - 1) * (cols - 1))
            },
            CursorViewStatus::After => *starting_offset = off - (rows + cols),
            CursorViewStatus::Inside => {},
        }
    }
}

/// The editor as the plugins see it: its document and its selection.
impl HexeratorHandle for App {
    open spec fn handle_data(&self) -> Seq<u8> {
        self.data@
    }

    open spec fn handle_selection(&self) -> Option<(usize, usize)> {
        self.selection
    }

    open spec fn handle_log(&self) -> Seq<Seq<char>> {
        self.log@.map_values(|line: String| line@)
    }

    /// Every field but `data` and `log`, which are left at one fixed value.
    open spec fn handle_rest(&self) -> App {
        App { data: vstd::pervasive::arbitrary(), log: vstd::pervasive::arbitrary(), ..*self }
    }

    fn selection_range(&self) -> (r: Option<(usize, usize)>) {
        self.selection
    }

    fn get_data(&self, start: usize, end: usize) -> (r: Option<&[u8]>) {
        if end < self.data.len() && start <= end + 1 {
            Some(vstd::slice::slice_subrange(self.data.as_slice(), start, end + 1))
        } else {
            None
        }
    }

    fn get_data_mut(&mut self, start: usize, end: usize) -> (r: Option<&mut [u8]>) {
        if end < self.data.len() && start <= end + 1 {
            let ghost whole = self.data@;
            let all = self.data.as_mut_slice();
            let (before, from_start) = all.split_at_mut(start);
            let (part, after) = from_start.split_at_mut(end + 1 - start);
            assert(final(before)@ == whole.subrange(0, start as int));
            assert(final(after)@ == whole.subrange(end + 1, whole.len() as int));
            Some(part)
        } else {
            None
        }
    }

    /// Adds `msg` to `log`, from which the host shows it in the debug overlay.
    fn debug_log(&mut self, msg: &str) {
        let ghost before = self.log@;
        self.log.push(owned(msg));
        assert(self.log@.map_values(|line: String| line@) =~= before.map_values(
            |line: String| line@,
        ).push(msg@));
    }
}

/// Two editor states with the same rest differ at most in the bytes of the document and in
/// the debug log.
pub proof fn lemma_same_rest_same_fields(a: App, b: App)
    requires
        a.handle_rest() == b.handle_rest(),
    ensures
        a == (App { data: a.data, log: a.log, ..b }),
{
    assert(a.handle_rest().cursor == a.cursor);
}

/// Focusing a search result leaves it visible: afterwards the cursor never stands before the
/// view, and it stands inside it when it stood before or inside it, or when the view holds at
/// least `rows + cols` bytes.
pub proof fn lemma_search_focus_shows_result(
    starting_offset: usize,
    off: usize,
    rows: usize,
    cols: usize,
)
    requires
        search_focus_fits(starting_offset, off, rows, cols),
    ensures
        0 <= focus_start(starting_offset, off, rows, cols) <= usize::MAX,
        !(view_status(off, focus_start(starting_offset, off, rows, cols) as usize, rows, cols) is Before),
        !(view_status(off, starting_offset, rows, cols) is After)
            ==> view_status(off, focus_start(starting_offset, off, rows, cols) as usize, rows, cols) is Inside,
        rows + cols <= rows * cols
            ==> view_status(off, focus_start(starting_offset, off, rows, cols) as usize, rows, cols) is Inside,
{
    let new_start = focus_start(starting_offset, off, rows, cols);
    assert(0 <= rows * cols) by (nonlinear_arith);
    match view_status(off, starting_offset, rows, cols) {
        CursorViewStatus::Before => {
            let p = (rows - 1) * (cols - 1);
            assert(p + rows + cols - 1 == rows * cols) by (nonlinear_arith)
                requires
                    p == (rows - 1) * (cols - 1),
            ;
            assert(0 <= p) by (nonlinear_arith)
                requires
                    p == (rows - 1) * (cols - 1),
                    rows >= 1,
                    cols >= 1,
            ;
        },
        CursorViewStatus::After => {},
        CursorViewStatus::Inside => {},
    }
}

} // verus!
