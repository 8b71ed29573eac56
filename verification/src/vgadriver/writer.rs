//! The text-mode screen writer: 25 rows of 80 characters, a cursor, scrolling, and the
//! shell's input line. The screen is held here as plain values; copying it to the VGA buffer
//! and moving the hardware cursor stay with the caller.
use vstd::prelude::*;
use vstd::string::StringSliceAdditionalSpecFns;

verus! {

pub const BUFFER_HEIGHT: usize = 25;
pub const BUFFER_WIDTH: usize = 80;
pub const SCREEN_CELLS: usize = 2000;
pub const NEW_LINE: u8 = 0x0A;
/// The colour new writers start with: light grey on black.
pub const DEFAULT_COLOR: u8 = 0x07;
/// The character shown for bytes that are not printable ASCII.
pub const UNPRINTABLE: u8 = 0xfe;

#[derive(Clone, Copy, Debug, PartialEq, Eq, Structural)]
pub struct ScreenChar {
    pub ascii_character: u8,
    pub color_code: u8,
}

pub struct Writer {
    pub column_position: usize,
    pub row_position: usize,
    pub color_code: u8,
    /// The cells, row after row.
    pub screen: Vec<ScreenChar>,
}

/// A writer's cursor, colour and cells.
#[verifier::ext_equal]
pub struct WriterView {
    pub col: int,
    pub row: int,
    pub color: u8,
    pub screen: Seq<ScreenChar>,
}

impl View for Writer {
    type V = WriterView;

    open spec fn view(&self) -> WriterView {
        WriterView {
            col: self.column_position as int,
            row: self.row_position as int,
            color: self.color_code,
            screen: self.screen@,
        }
    }
}

/// A blank cell in colour `color`.
pub open spec fn blank(color: u8) -> ScreenChar {
    ScreenChar { ascii_character: 32, color_code: color }
}

/// The cursor is on the screen (the column may stand just past the last one) and the screen
/// has all its cells.
pub open spec fn writer_wf(v: WriterView) -> bool {
    &&& 0 <= v.row < BUFFER_HEIGHT
    &&& 0 <= v.col <= BUFFER_WIDTH
    &&& v.screen.len() == SCREEN_CELLS
}

/// The cells with row `row` blanked.
pub open spec fn clear_row_spec(s: Seq<ScreenChar>, row: int, color: u8) -> Seq<ScreenChar> {
    Seq::new(s.len(), |i: int| if row * 80 <= i < row * 80 + 80 { blank(color) } else { s[i] })
}

/// Every row moves up one, the top row is lost and the bottom row is blank; the cursor goes
/// to the start of its row.
pub open spec fn scroll_spec(v: WriterView) -> WriterView {
    WriterView {
        col: 0,
        screen: Seq::new(v.screen.len(), |i: int| if i < 1920 { v.screen[i + 80] } else { blank(v.color) }),
        ..v
    }
}

/// The cursor goes to the start of the next row, scrolling at the bottom.
pub open spec fn new_line_spec(v: WriterView) -> WriterView {
    if v.row >= 24 {
        scroll_spec(WriterView { col: 0, ..v })
    } else {
        WriterView { col: 0, row: v.row + 1, ..v }
    }
}

/// Writes a byte at the cursor (a newline moves to the next row; at the end of a row the
/// writer first moves to the next one).
pub open spec fn write_byte_spec(v: WriterView, b: u8) -> WriterView {
    if b == NEW_LINE {
        new_line_spec(v)
    } else {
        let v1 = if v.col >= 80 { new_line_spec(v) } else { v };
        WriterView {
            screen: v1.screen.update(v1.row * 80 + v1.col, ScreenChar { ascii_character: b, color_code: v1.color }),
            col: v1.col + 1,
            ..v1
        }
    }
}

/// The byte shown for `b`: itself when printable ASCII or a newline, else the block.
pub open spec fn shown(b: u8) -> u8 {
    if (0x20 <= b <= 0x7e) || b == NEW_LINE { b } else { UNPRINTABLE }
}

/// Writes the bytes in order.
pub open spec fn write_bytes_spec(v: WriterView, bytes: Seq<u8>) -> WriterView
    decreases bytes.len(),
{
    if bytes.len() == 0 {
        v
    } else {
        write_byte_spec(write_bytes_spec(v, bytes.drop_last()), shown(bytes.last()))
    }
}

/// Writes a byte at the cursor without moving to another row: nothing at the end of a row.
pub open spec fn write_raw_spec(v: WriterView, b: u8) -> WriterView {
    if v.col >= 80 {
        v
    } else {
        WriterView {
            screen: v.screen.update(v.row * 80 + v.col, ScreenChar { ascii_character: b, color_code: v.color }),
            col: v.col + 1,
            ..v
        }
    }
}

/// Writes the bytes in order without moving to another row.
pub open spec fn write_raw_bytes_spec(v: WriterView, bytes: Seq<u8>) -> WriterView
    decreases bytes.len(),
{
    if bytes.len() == 0 {
        v
    } else {
        write_raw_spec(write_raw_bytes_spec(v, bytes.drop_last()), bytes.last())
    }
}

/// The shell line redrawn on the cursor's row: the row is blanked, the prompt `>` (when shown)
/// and the line are written from its start, and the cursor is put at the line's cursor.
pub open spec fn redraw_spec(v: WriterView, content: Seq<u8>, index: int, prompt: bool) -> WriterView {
    let v0 = WriterView { screen: clear_row_spec(v.screen, v.row, v.color), col: 0, ..v };
    let v1 = if prompt { write_raw_spec(v0, 62) } else { v0 };
    let v2 = write_raw_bytes_spec(v1, content);
    WriterView { col: index + if prompt { 1int } else { 0int }, ..v2 }
}

proof fn lemma_write_raw_bytes_wf(v: WriterView, bytes: Seq<u8>)
    requires
        writer_wf(v),
    ensures
        writer_wf(write_raw_bytes_spec(v, bytes)),
        write_raw_bytes_spec(v, bytes).row == v.row,
        write_raw_bytes_spec(v, bytes).color == v.color,
    decreases bytes.len(),
{
    if bytes.len() > 0 {
        lemma_write_raw_bytes_wf(v, bytes.drop_last());
    }
}

impl Writer {
    pub open spec fn wf(&self) -> bool {
        writer_wf(self@)
    }

    /// A writer at the top left of a blank screen in the default colour.
    pub fn new() -> (r: Self)
        ensures
            r.wf(),
            r@.col == 0 && r@.row == 0 && r@.color == DEFAULT_COLOR,
            forall|i: int| 0 <= i < SCREEN_CELLS ==> #[trigger] r@.screen[i] == blank(DEFAULT_COLOR),
    {
        let mut screen: Vec<ScreenChar> = Vec::new();
        let mut i: usize = 0;
        while i < SCREEN_CELLS
            invariant
                i <= SCREEN_CELLS,
                screen@.len() == i,
                forall|k: int| 0 <= k < i ==> #[trigger] screen@[k] == blank(DEFAULT_COLOR),
            decreases SCREEN_CELLS - i,
        {
            screen.push(ScreenChar { ascii_character: 32, color_code: DEFAULT_COLOR });
            i = i + 1;
        }
        Writer { column_position: 0, row_position: 0, color_code: DEFAULT_COLOR, screen }
    }

    /// Blanks a row.
    fn clear_row(&mut self, row: usize)
        requires
            old(self).wf(),
            row < BUFFER_HEIGHT,
        ensures
            final(self)@ == (WriterView { screen: clear_row_spec(old(self)@.screen, row as int, old(self)@.color), ..old(self)@ }),
    {
        let ghost s0 = self.screen@;
        let mut col: usize = 0;
        while col < BUFFER_WIDTH
            invariant
                col <= BUFFER_WIDTH,
                row < BUFFER_HEIGHT,
                self.screen@.len() == SCREEN_CELLS,
                s0.len() == SCREEN_CELLS,
                self.column_position == old(self).column_position,
                self.row_position == old(self).row_position,
                self.color_code == old(self).color_code,
                s0 == old(self).screen@,
                forall|i: int| 0 <= i < SCREEN_CELLS ==> #[trigger] self.screen@[i] == if row * 80 <= i < row * 80 + col {
                    blank(self.color_code)
                } else {
                    s0[i]
                },
            decreases BUFFER_WIDTH - col,
        {
            self.screen.set(row * BUFFER_WIDTH + col, ScreenChar { ascii_character: 32, color_code: self.color_code });
            col = col + 1;
        }
        assert(self.screen@ =~= clear_row_spec(s0, row as int, self.color_code));
    }

    /// Moves every row up one and blanks the bottom row; the cursor goes to the start of its
    /// row.
    fn scroll(&mut self)
        requires
            old(self).wf(),
        ensures
            final(self).wf(),
            final(self)@ == scroll_spec(old(self)@),
    {
        let ghost s0 = self.screen@;
        let mut i: usize = 0;
        while i < SCREEN_CELLS - BUFFER_WIDTH
            invariant
                i <= SCREEN_CELLS - BUFFER_WIDTH,
                self.screen@.len() == SCREEN_CELLS,
                s0.len() == SCREEN_CELLS,
                s0 == old(self).screen@,
                self.column_position == old(self).column_position,
                self.row_position == old(self).row_position,
                self.color_code == old(self).color_code,
                forall|k: int| 0 <= k < SCREEN_CELLS ==> #[trigger] self.screen@[k] == if k < i { s0[k + 80] } else { s0[k] },
            decreases SCREEN_CELLS - BUFFER_WIDTH - i,
        {
            let c = self.screen[i + BUFFER_WIDTH];
            self.screen.set(i, c);
            i = i + 1;
        }
        self.clear_row(BUFFER_HEIGHT - 1);
        self.column_position = 0;
        assert(self.screen@ =~= scroll_spec(old(self)@).screen);
    }

    /// Moves to the start of the next row, scrolling at the bottom.
    fn new_line(&mut self)
        requires
            old(self).wf(),
        ensures
            final(self).wf(),
            final(self)@ == new_line_spec(old(self)@),
    {
        self.column_position = 0;
        if self.row_position >= BUFFER_HEIGHT - 1 {
            self.scroll();
        } else {
            self.row_position = self.row_position + 1;
        }
    }

    /// Writes a byte at the cursor (see `write_byte_spec`).
    pub fn write_byte(&mut self, byte: u8)
        requires
            old(self).wf(),
        ensures
            final(self).wf(),
            final(self)@ == write_byte_spec(old(self)@, byte),
    {
        if byte == NEW_LINE {
            self.new_line();
            return;
        }
        if self.column_position >= BUFFER_WIDTH {
            self.new_line();
        }
        let at = self.row_position * BUFFER_WIDTH + self.column_position;
        self.screen.set(at, ScreenChar { ascii_character: byte, color_code: self.color_code });
        self.column_position = self.column_position + 1;
    }

    /// Writes the bytes of a text: printable ASCII and newlines as they are, others as the
    /// block character.
    pub fn write_string(&mut self, s: &str)
        requires
            old(self).wf(),
        ensures
            final(self).wf(),
            final(self)@ == write_bytes_spec(old(self)@, s.spec_bytes()),
    {
        let bytes = s.as_bytes();
        let mut i: usize = 0;
        while i < bytes.len()
            invariant
                i <= bytes@.len(),
                bytes@ == s.spec_bytes(),
                self.wf(),
                self@ == write_bytes_spec(old(self)@, bytes@.take(i as int)),
            decreases bytes@.len() - i,
        {
            let b = bytes[i];
            let shown_byte = if (0x20 <= b && b <= 0x7e) || b == NEW_LINE { b } else { UNPRINTABLE };
            self.write_byte(shown_byte);
            assert(bytes@.take(i + 1).drop_last() =~= bytes@.take(i as int));
            i = i + 1;
        }
        assert(bytes@.take(bytes@.len() as int) =~= bytes@);
    }

    /// Moves the cursor back one column and blanks the cell there; nothing at the start of a
    /// row.
    pub fn backspace(&mut self)
        requires
            old(self).wf(),
        ensures
            final(self).wf(),
            old(self)@.col == 0 ==> final(self)@ == old(self)@,
            old(self)@.col > 0 ==> final(self)@ == (WriterView {
                col: old(self)@.col - 1,
                screen: old(self)@.screen.update(old(self)@.row * 80 + old(self)@.col - 1, blank(old(self)@.color)),
                ..old(self)@
            }),
    {
        if self.column_position > 0 {
            self.column_position = self.column_position - 1;
            let at = self.row_position * BUFFER_WIDTH + self.column_position;
            self.screen.set(at, ScreenChar { ascii_character: 32, color_code: self.color_code });
        }
    }

    /// Blanks the screen and puts the cursor at the top left.
    pub fn clear(&mut self)
        requires
            old(self).wf(),
        ensures
            final(self).wf(),
            final(self)@.col == 0 && final(self)@.row == 0 && final(self)@.color == old(self)@.color,
            forall|i: int| 0 <= i < SCREEN_CELLS ==> #[trigger] final(self)@.screen[i] == blank(old(self)@.color),
    {
        let mut i: usize = 0;
        while i < SCREEN_CELLS
            invariant
                i <= SCREEN_CELLS,
                self.screen@.len() == SCREEN_CELLS,
                self.color_code == old(self).color_code,
                forall|k: int| 0 <= k < i ==> #[trigger] self.screen@[k] == blank(self.color_code),
            decreases SCREEN_CELLS - i,
        {
            self.screen.set(i, ScreenChar { ascii_character: 32, color_code: self.color_code });
            i = i + 1;
        }
        self.column_position = 0;
        self.row_position = 0;
    }

    /// Writes a byte at the cursor without moving to another row.
    fn write_byte_raw(&mut self, byte: u8)
        requires
            old(self).wf(),
        ensures
            final(self).wf(),
            final(self)@ == write_raw_spec(old(self)@, byte),
    {
        if self.column_position >= BUFFER_WIDTH {
            return;
        }
        let at = self.row_position * BUFFER_WIDTH + self.column_position;
        self.screen.set(at, ScreenChar { ascii_character: byte, color_code: self.color_code });
        self.column_position = self.column_position + 1;
    }

    /// Redraws the shell's input line on the cursor's row (see `redraw_spec`): `content` is
    /// the line, `shell_index` its cursor, `prompt` whether the `>` prompt is shown.
    pub fn redraw_shell_line(&mut self, content: &[u8], shell_index: usize, prompt: bool)
        requires
            old(self).wf(),
            shell_index < BUFFER_WIDTH,
        ensures
            final(self).wf(),
            final(self)@ == redraw_spec(old(self)@, content@, shell_index as int, prompt),
    {
        self.clear_row(self.row_position);
        self.column_position = 0;
        if prompt {
            self.write_byte_raw(62);
        }
        let ghost v1 = self@;
        let mut i: usize = 0;
        while i < content.len()
            invariant
                i <= content@.len(),
                writer_wf(v1),
                self.wf(),
                self@ == write_raw_bytes_spec(v1, content@.take(i as int)),
            decreases content@.len() - i,
        {
            self.write_byte_raw(content[i]);
            assert(content@.take(i + 1).drop_last() =~= content@.take(i as int));
            i = i + 1;
        }
        assert(content@.take(content@.len() as int) =~= content@);
        proof {
            lemma_write_raw_bytes_wf(v1, content@);
        }
        self.column_position = shell_index + if prompt { 1 } else { 0 };
    }

    /// The hardware cursor position for the writer's cursor: row * 80 + column, at most the
    /// last cell.
    pub fn cursor_position(&self) -> (r: u16)
        requires
            self.wf(),
        ensures
            r == if self@.row * 80 + self@.col >= SCREEN_CELLS { SCREEN_CELLS - 1 } else { self@.row * 80 + self@.col },
    {
        let pos = self.row_position * BUFFER_WIDTH + self.column_position;
        if pos >= SCREEN_CELLS {
            (SCREEN_CELLS - 1) as u16
        } else {
            pos as u16
        }
    }

    /// Moves the cursor one column left, unless at the start of the row.
    pub fn move_cursor_left(&mut self)
        requires
            old(self).wf(),
        ensures
            final(self).wf(),
            final(self)@ == (WriterView { col: if old(self)@.col == 0 { 0 } else { old(self)@.col - 1 }, ..old(self)@ }),
    {
        if self.column_position == 0 {
            return;
        }
        self.column_position = self.column_position - 1;
    }

    /// Moves the cursor one column right, unless past the end of the row.
    pub fn move_cursor_right(&mut self)
        requires
            old(self).wf(),
        ensures
            final(self).wf(),
            final(self)@ == (WriterView { col: if old(self)@.col >= 80 { old(self)@.col } else { old(self)@.col + 1 }, ..old(self)@ }),
    {
        if self.column_position >= 80 {
            return;
        }
        self.column_position = self.column_position + 1;
    }
}

} // verus!
