use vstd::prelude::*;
use vstd::string::*;

use crate::cell::{Color, TermChar, Paint, Pixel, empty_cell, empty_term_char, pixel_cell, on_screen};
use crate::screen::{Item, Layer, Screen, decimal, digit_char, first_hit, frame_text, lemma_first_hit};
use crate::codec::{Update, SerializableTermChar, SerializableErase, UpdateView, record, decode_record,
    split_records, decoded, palette_index, records_of, byte_rows};
use crate::session::Client;

use std::collections::VecDeque;

verus! {

/// The active interpretation of pointer presses.
#[derive(Clone, Copy, Debug, PartialEq, Eq, Structural)]
pub enum Tool {
    Brush,
    Erase,
    Ink,
    Move,
    Text,
}

/// A modal overlay shown on top of the canvas.
#[derive(Clone, Copy, Debug, PartialEq, Eq, Structural)]
pub enum Config {
    Idle,
    ColorSelection,
    Connection,
}

#[derive(Clone, Copy, Debug, PartialEq, Eq, Structural)]
pub enum KeyCode {
    Char(char),
    Enter,
    Esc,
    Backspace,
    Other,
}

#[derive(Clone, Copy, Debug, PartialEq, Eq, Structural)]
pub enum KeyEventKind {
    Press,
    Repeat,
    Release,
}

#[derive(Clone, Copy, Debug, PartialEq, Eq, Structural)]
pub struct KeyEvent {
    pub code: KeyCode,
    pub kind: KeyEventKind,
}

#[derive(Clone, Copy, Debug, PartialEq, Eq, Structural)]
pub enum MouseButton {
    Left,
    Right,
    Middle,
}

#[derive(Clone, Copy, Debug, PartialEq, Eq, Structural)]
pub enum MouseEventKind {
    Down(MouseButton),
    Up(MouseButton),
    Drag(MouseButton),
    Moved,
    Scroll,
}

#[derive(Clone, Copy, Debug, PartialEq, Eq, Structural)]
pub struct MouseEvent {
    pub kind: MouseEventKind,
    pub column: u16,
    pub row: u16,
}

/// One instruction for the terminal, to be carried out in order.
#[derive(Clone, Debug, PartialEq, Eq)]
pub enum TermCommand {
    /// Write one cell.
    Paint(Paint),
    /// Put the caret at a column and row.
    MoveTo(u16, u16),
    ShowCursor,
    HideCursor,
    Clear,
    EnableMouseCapture,
    /// Write a composited frame from the top-left corner.
    Frame(String),
    /// Print a line of text.
    Message(String),
}

/// How far the background layer may be panned along each axis, so that
/// every layer-relative position of a screen cell is an `i32`.
pub const PAN_LIMIT: i32 = 0x4000_0000;

pub open spec fn paint_commands(ps: Seq<Paint>) -> Seq<TermCommand> {
    ps.map_values(|p: Paint| TermCommand::Paint(p))
}

/// `n` divided by 2, rounded toward zero.
pub open spec fn half(n: int) -> int {
    if n >= 0 { n / 2 } else { -((-n) / 2) }
}

pub open spec fn zeros(k: int) -> Seq<char> {
    Seq::new(if k > 0 { k as nat } else { 0 }, |i: int| '0')
}

/// `n` in decimal, zero-padded after any sign to at least four characters.
pub open spec fn padded4(n: int) -> Seq<char> {
    if n >= 0 {
        zeros(4 - decimal(n as nat).len()) + decimal(n as nat)
    } else {
        seq!['-'] + zeros(3 - decimal((-n) as nat).len()) + decimal((-n) as nat)
    }
}

/// The coordinate readout for a canvas-relative position: the column in
/// double-width cells, a space, and the row.
pub open spec fn readout(col: int, row: int) -> Seq<char> {
    padded4(half(col)) + seq![' '] + padded4(row)
}

pub open spec fn info_cell(c: char) -> TermChar {
    TermChar { character: c, foreground_color: Color::Reset, background_color: Color::Reset, empty: false }
}

/// The glyph that shows the active tool.
pub open spec fn tool_glyph(tool: Tool, color: Color) -> TermChar {
    match tool {
        Tool::Brush => TermChar {
            character: 'B',
            foreground_color: if color == Color::AnsiValue(0) { Color::White } else { color },
            background_color: Color::Reset,
            empty: false,
        },
        Tool::Erase => TermChar { character: 'E', foreground_color: Color::White, background_color: Color::Reset, empty: false },
        Tool::Ink => TermChar { character: 'I', foreground_color: Color::White, background_color: Color::Reset, empty: false },
        Tool::Move => TermChar { character: 'M', foreground_color: Color::White, background_color: Color::Reset, empty: false },
        Tool::Text => TermChar { character: 'T', foreground_color: Color::White, background_color: Color::Reset, empty: false },
    }
}

/// Whether `item` is palette swatch `c` of the overlay on a screen of
/// height `h`.
pub open spec fn is_swatch(item: Item, c: int, h: int) -> bool {
    &&& item.name@ == swatch_name()
    &&& item.offset.0 == 2 * c
    &&& item.offset.1 == h - 1
    &&& item.grid() == seq![seq![pixel_cell(Color::AnsiValue(c as u8)), pixel_cell(Color::AnsiValue(c as u8))]]
}

pub open spec fn swatch_name() -> Seq<char> {
    "color_selection_pixels"@
}

/// The paints that blank the first `n` columns of row `row`.
pub open spec fn blank_row_paints(n: int, row: int, w: int, h: int) -> Seq<Paint>
    decreases n,
{
    if n <= 0 {
        seq![]
    } else {
        let rest = blank_row_paints(n - 1, row, w, h);
        if on_screen(n - 1, row, w, h) {
            rest.push(Paint { col: (n - 1) as u16, row: row as u16, cell: empty_cell() })
        } else {
            rest
        }
    }
}

/// The even column a pointer event addresses: cells are two columns wide.
pub open spec fn pointer_col(e: MouseEvent) -> u16 {
    (e.column - e.column % 2) as u16
}

pub open spec fn is_left_press(k: MouseEventKind) -> bool {
    k == MouseEventKind::Down(MouseButton::Left) || k == MouseEventKind::Drag(MouseButton::Left)
}

/// Whether `item` is the pixel a brush press at screen `(col, row)` makes
/// in color `color` on a layer panned by `off`.
pub open spec fn is_brush_item(item: Item, off: (i32, i32), col: int, row: int, color: Color) -> bool {
    &&& item.name@ == seq!['P']
    &&& item.offset.0 == col - off.0
    &&& item.offset.1 == row - off.1
    &&& item.grid() == seq![seq![pixel_cell(color), pixel_cell(color)]]
}

/// The placement that mirrors a brush press at layer-relative `(x, y)`.
pub open spec fn brush_placement(x: int, y: int, color: Color) -> SerializableTermChar {
    SerializableTermChar {
        abs_x: x as i32,
        abs_y: y as i32,
        character: ' ',
        foreground_color: palette_index(color),
        background_color: palette_index(color),
        empty: false,
    }
}

/// `items` without the first one that fills screen position `(x, y)`.
pub open spec fn erased(items: Seq<Item>, off: (i32, i32), x: int, y: int) -> Seq<Item> {
    match first_hit(items, off, x, y) {
        Some(i) => items.remove(i),
        None => items,
    }
}

/// The cell of `item` rendered at screen position `(x, y)`.
pub open spec fn cell_at(item: Item, off: (i32, i32), x: int, y: int) -> TermChar {
    item.chars@[y - off.1 - item.offset.1]@[x - off.0 - item.offset.0]
}

/// The client's queue after `u` was published, when there is a client.
pub open spec fn published(before: Option<Client>, after: Option<Client>, u: UpdateView) -> bool {
    match before {
        Some(c) => after is Some && after->0.queue() == c.queue().push(record(u).push(10))
            && after->0.addr == c.addr,
        None => after is None,
    }
}

/// Whether panning by `d` keeps offset `off` within `PAN_LIMIT`.
pub open spec fn pan_ok(off: (i32, i32), d: (int, int)) -> bool {
    -PAN_LIMIT <= off.0 + d.0 <= PAN_LIMIT && -PAN_LIMIT <= off.1 + d.1 <= PAN_LIMIT
}

/// Whether `item` is the glyph typed as `c` in color `color` at screen
/// `pos` on a layer panned by `off`: the character, then a transparent cell.
pub open spec fn is_text_item(item: Item, off: (i32, i32), pos: (u16, u16), c: char, color: Color) -> bool {
    &&& item.name@ == seq!['c', 'h', 'a', 'r']
    &&& item.offset.0 == pos.0 - off.0
    &&& item.offset.1 == pos.1 - off.1
    &&& item.grid() == seq![seq![
        TermChar { character: c, foreground_color: color, background_color: Color::Reset, empty: false },
        empty_cell(),
    ]]
}

/// Whether `item` mirrors the inbound placement `p`: two copies of its cell
/// at its coordinates.
pub open spec fn is_placed_item(item: Item, p: SerializableTermChar) -> bool {
    let cell = TermChar {
        character: p.character,
        foreground_color: Color::AnsiValue(p.foreground_color),
        background_color: Color::AnsiValue(p.background_color),
        empty: p.empty,
    };
    &&& item.name@ == seq!['p', 'i', 'x', 'e', 'l']
    &&& item.offset == (p.abs_x, p.abs_y)
    &&& item.grid() == seq![seq![cell, cell]]
}

/// How an inbound update changes the background items `before` of a layer
/// panned by `off` into `after`: a placement replaces every item at its
/// offset with its own item, appended last, an erasure
/// removes the first item at its coordinates shifted by the pan, and a
/// batch changes nothing.
pub open spec fn applied(before: Seq<Item>, after: Seq<Item>, off: (i32, i32), u: UpdateView) -> bool {
    match u {
        UpdateView::TermChar(p) => after.len() > 0
            && after.drop_last() == before.filter(|x: Item| x.offset != (p.abs_x, p.abs_y))
            && is_placed_item(after.last(), p),
        UpdateView::Erase(e) => after == erased(before, off, e.abs_x + off.0, e.abs_y + off.1),
        UpdateView::Sync(_) => after == before,
    }
}

/// A brush press followed by an erase press at the same screen position
/// leaves the background with as many items as before the brush.
pub proof fn lemma_brush_then_erase(before: DrawTerm, brushed: DrawTerm, erasing: DrawTerm, after: DrawTerm,
    c0: Option<Client>, c1: Option<Client>, c2: Option<Client>, c3: Option<Client>, col: int, row: int)
    requires
        before.tool == Tool::Brush,
        first_hit(before.fg().items@, before.fg().offset, col, row) is None,
        DrawTerm::press_effect(before, brushed, c0, c1, col, row),
        erasing.tool == Tool::Erase,
        erasing.bg() == brushed.bg(),
        erasing.fg() == brushed.fg(),
        DrawTerm::press_effect(erasing, after, c2, c3, col, row),
    ensures
        after.bg().items@.len() == before.bg().items@.len(),
{
    let items = before.bg().items@;
    let off = before.bg().offset;
    let grown = brushed.bg().items@;
    let pixel = grown.last();
    assert(grown == items.push(pixel));
    assert(pixel.grid().len() == pixel.chars@.len());
    assert(pixel.grid()[0] == pixel.chars@[0]@);
    assert(pixel.grid()[0][0] == pixel.chars@[0]@[0]);
    assert(pixel.fills(off, col, row));
    lemma_first_hit(grown, off, col, row);
    if first_hit(grown, off, col, row) is None {
        assert(grown[grown.len() - 1] == pixel);
    }
}

/// How one inbound record changes the background items: as its update
/// does, or not at all when it is malformed.
pub open spec fn applied_record(before: Seq<Item>, after: Seq<Item>, off: (i32, i32), rec: Seq<u8>) -> bool {
    match decoded(rec) {
        Some(u) => applied(before, after, off, u),
        None => after == before,
    }
}

/// How a run of inbound records, applied in order, changes the background
/// items.
pub open spec fn applied_records(before: Seq<Item>, after: Seq<Item>, off: (i32, i32), recs: Seq<Seq<u8>>) -> bool
    decreases recs.len(),
{
    if recs.len() == 0 {
        after == before
    } else {
        exists|mid: Seq<Item>| applied_records(before, mid, off, recs.drop_last())
            && #[trigger] applied_record(mid, after, off, recs.last())
    }
}

/// The records of a run of chunks, in order.
pub open spec fn chunk_records(chunks: Seq<Vec<u8>>) -> Seq<Seq<u8>>
    decreases chunks.len(),
{
    if chunks.len() == 0 {
        seq![]
    } else {
        chunk_records(chunks.drop_last()) + records_of(chunks.last()@)
    }
}

/// Chunks taken from the front one at a time give their records in order.
proof fn lemma_chunk_records_front(chunks: Seq<Vec<u8>>)
    requires
        chunks.len() > 0,
    ensures
        chunk_records(chunks) == records_of(chunks[0]@) + chunk_records(chunks.drop_first()),
    decreases chunks.len(),
{
    if chunks.len() == 1 {
        assert(chunks.drop_last() =~= Seq::<Vec<u8>>::empty());
        assert(chunks.drop_first() =~= Seq::<Vec<u8>>::empty());
        assert(chunk_records(chunks) =~= records_of(chunks[0]@) + chunk_records(chunks.drop_first()));
    } else {
        lemma_chunk_records_front(chunks.drop_last());
        assert(chunks.drop_last().drop_first() =~= chunks.drop_first().drop_last());
        assert(chunks.drop_last()[0] == chunks[0]);
        assert(chunks.drop_first().last() == chunks.last());
        assert(chunk_records(chunks) =~= records_of(chunks[0]@) + chunk_records(chunks.drop_first()));
    }
}

fn decimal_chars(n: u64) -> (r: Vec<char>)
    ensures
        r@ == decimal(n as nat),
{
    let mut digits: Vec<char> = Vec::new();
    let mut m: u64 = n;
    while m >= 10
        invariant
            decimal(n as nat) == decimal(m as nat) + digits@,
        decreases m,
    {
        digits.insert(0, digit_of((m % 10) as u8));
        assert(decimal(m as nat) == decimal((m / 10) as nat).push(digit_char((m % 10) as nat)));
        m = m / 10;
        assert(decimal(n as nat) =~= decimal(m as nat) + digits@);
    }
    digits.insert(0, digit_of(m as u8));
    assert(decimal(n as nat) =~= digits@);
    digits
}

fn digit_of(d: u8) -> (r: char)
    requires
        d < 10,
    ensures
        r == digit_char(d as nat),
{
    if d == 0 { '0' } else if d == 1 { '1' } else if d == 2 { '2' } else if d == 3 { '3' }
    else if d == 4 { '4' } else if d == 5 { '5' } else if d == 6 { '6' } else if d == 7 { '7' }
    else if d == 8 { '8' } else { '9' }
}

fn padded_chars(n: i64) -> (r: Vec<char>)
    requires
        n > i64::MIN,
    ensures
        r@ == padded4(n as int),
{
    let negative = n < 0;
    let magnitude: u64 = if negative { (-n) as u64 } else { n as u64 };
    let digits = decimal_chars(magnitude);
    let width: usize = if negative { 3 } else { 4 };
    let mut out: Vec<char> = Vec::new();
    if negative {
        out.push('-');
    }
    let ghost head = out@;
    let mut k: usize = digits.len();
    while k < width
        invariant
            digits.len() <= k <= width || (k == digits.len() && k >= width),
            out@ == head + zeros(k - digits@.len()),
        decreases width - k,
    {
        out.push('0');
        assert(out@ =~= head + zeros(k + 1 - digits@.len()));
        k += 1;
    }
    let mut i: usize = 0;
    let ghost padded = out@;
    while i < digits.len()
        invariant
            0 <= i <= digits@.len(),
            out@ == padded + digits@.take(i as int),
        decreases digits@.len() - i,
    {
        out.push(digits[i]);
        assert(out@ =~= padded + digits@.take(i + 1));
        i += 1;
    }
    assert(digits@.take(i as int) =~= digits@);
    assert(out@ =~= padded4(n as int));
    out
}

/// The editor: a two-layer screen (background drawing surface, foreground
/// overlay), the tool state machine, and the terminal commands produced so
/// far and not yet taken.
pub struct DrawTerm {
    pub screen: Screen,
    pub tool: Tool,
    pub config: Config,
    pub cursor: Item,
    pub cursor_info: Item,
    pub resized: bool,
    pub typing: bool,
    pub color_selected: Color,
    pub last_cursor_position: (u16, u16),
    pub out: Vec<TermCommand>,
}

impl DrawTerm {
    pub open spec fn bg(&self) -> Layer {
        self.screen.layers@[0]
    }

    pub open spec fn fg(&self) -> Layer {
        self.screen.layers@[1]
    }

    /// Two layers, and a background pan within `PAN_LIMIT`.
    pub open spec fn wf(&self) -> bool {
        &&& self.screen.layers@.len() == 2
        &&& -PAN_LIMIT <= self.bg().offset.0 <= PAN_LIMIT
        &&& -PAN_LIMIT <= self.bg().offset.1 <= PAN_LIMIT
    }

    /// A fresh editor for a `width` × `height` terminal: empty layers, the
    /// brush with palette color 0, and no overlay.
    pub fn new(width: u16, height: u16) -> (r: Self)
        ensures
            r.wf(),
            r.screen.width == width,
            r.screen.height == height,
            r.bg().items@.len() == 0,
            r.fg().items@.len() == 0,
            r.bg().offset == (0i32, 0i32),
            r.fg().offset == (0i32, 0i32),
            r.screen.layers@.len() == 2,
            r.tool == Tool::Brush,
            r.config == Config::Idle,
            r.color_selected == Color::AnsiValue(0),
            !r.typing,
            !r.resized,
            r.last_cursor_position == (0u16, 0u16),
            r.cursor.offset.0 == width - 1,
            r.cursor.offset.1 == 0,
            r.cursor_info.offset.0 == width - 9,
            r.cursor_info.offset.1 == height - 1,
            r.out@.len() == 0,
    {
        let foreground = Layer::new_empty(String::from_str("foreground"), width, height, (0, 0));
        let background = Layer::new_empty(String::from_str("background"), width, height, (0, 0));
        let mut layers: Vec<Layer> = Vec::new();
        layers.push(background);
        layers.push(foreground);
        let screen = Screen::new(layers, width, height);
        let mut cursor_chars: Vec<Vec<TermChar>> = Vec::new();
        cursor_chars.push(vec![empty_term_char()]);
        let mut info_chars: Vec<Vec<TermChar>> = Vec::new();
        info_chars.push(vec![empty_term_char()]);
        let cursor = Item { name: String::from_str("cursor"), offset: (width as i32 - 1, 0), chars: cursor_chars };
        let cursor_info = Item {
            name: String::from_str("cursor_info"),
            offset: (width as i32 - 9, height as i32 - 1),
            chars: info_chars,
        };
        DrawTerm {
            screen,
            tool: Tool::Brush,
            config: Config::Idle,
            cursor,
            cursor_info,
            resized: false,
            typing: false,
            color_selected: Color::AnsiValue(0),
            last_cursor_position: (0, 0),
            out: Vec::new(),
        }
    }

    /// Hands over the terminal commands produced so far.
    pub fn take_output(&mut self) -> (r: Vec<TermCommand>)
        ensures
            r@ == old(self).out@,
            final(self).out@.len() == 0,
            final(self).screen == old(self).screen,
            final(self).tool == old(self).tool,
            final(self).config == old(self).config,
            final(self).typing == old(self).typing,
            final(self).color_selected == old(self).color_selected,
            final(self).last_cursor_position == old(self).last_cursor_position,
    {
        let mut r: Vec<TermCommand> = Vec::new();
        std::mem::swap(&mut r, &mut self.out);
        r
    }

    fn emit_paints(&mut self, ps: Vec<Paint>)
        ensures
            final(self).out@ == old(self).out@ + paint_commands(ps@),
            final(self).screen == old(self).screen,
            final(self).tool == old(self).tool,
            final(self).config == old(self).config,
            final(self).typing == old(self).typing,
            final(self).color_selected == old(self).color_selected,
            final(self).last_cursor_position == old(self).last_cursor_position,
            final(self).resized == old(self).resized,
            final(self).cursor == old(self).cursor,
            final(self).cursor_info == old(self).cursor_info,
    {
        let mut i: usize = 0;
        while i < ps.len()
            invariant
                0 <= i <= ps@.len(),
                self.out@ == old(self).out@ + paint_commands(ps@.take(i as int)),
                self.screen == old(self).screen,
                self.tool == old(self).tool,
                self.config == old(self).config,
                self.typing == old(self).typing,
                self.color_selected == old(self).color_selected,
                self.last_cursor_position == old(self).last_cursor_position,
                self.resized == old(self).resized,
                self.cursor == old(self).cursor,
                self.cursor_info == old(self).cursor_info,
            decreases ps@.len() - i,
        {
            self.out.push(TermCommand::Paint(ps[i]));
            assert(self.out@ =~= old(self).out@ + paint_commands(ps@.take(i + 1)));
            i += 1;
        }
        assert(ps@.take(i as int) =~= ps@);
    }

    /// Clears the whole terminal.
    pub fn clear_screen(&mut self)
        ensures
            final(self).out@ == old(self).out@.push(TermCommand::Clear),
            final(self).screen == old(self).screen,
            final(self).tool == old(self).tool,
            final(self).config == old(self).config,
            final(self).typing == old(self).typing,
            final(self).color_selected == old(self).color_selected,
            final(self).last_cursor_position == old(self).last_cursor_position,
    {
        self.out.push(TermCommand::Clear);
    }

    /// Shows the palette overlay: sixteen swatches, one per palette color
    /// `c`, appended to the foreground at column `2c` of the bottom row and
    /// drawn at once.
    pub fn draw_ansi_colors(&mut self)
        requires
            old(self).wf(),
        ensures
            final(self).wf(),
            final(self).config == Config::ColorSelection,
            final(self).bg() == old(self).bg(),
            final(self).fg().offset == old(self).fg().offset,
            final(self).fg().items@.len() == old(self).fg().items@.len() + 16,
            final(self).fg().items@.take(old(self).fg().items@.len() as int) == old(self).fg().items@,
            forall|c: int| 0 <= c < 16 ==> is_swatch(
                #[trigger] final(self).fg().items@[old(self).fg().items@.len() + c], c, old(self).screen.height as int),
            final(self).screen.width == old(self).screen.width,
            final(self).screen.height == old(self).screen.height,
            final(self).tool == old(self).tool,
            final(self).typing == old(self).typing,
            final(self).color_selected == old(self).color_selected,
            final(self).last_cursor_position == old(self).last_cursor_position,
    {
        self.config = Config::ColorSelection;
        let ghost start = self.fg().items@;
        let width = self.screen.width;
        let height = self.screen.height;
        let mut c: u8 = 0;
        while c < 16
            invariant
                0 <= c <= 16,
                self.wf(),
                self.config == Config::ColorSelection,
                self.bg() == old(self).bg(),
                self.fg().offset == old(self).fg().offset,
                self.fg().items@.len() == start.len() + c,
                self.fg().items@.take(start.len() as int) == start,
                start == old(self).fg().items@,
                forall|k: int| 0 <= k < c ==> is_swatch(#[trigger] self.fg().items@[start.len() + k], k, height as int),
                width == old(self).screen.width,
                height == old(self).screen.height,
                self.screen.width == old(self).screen.width,
                self.screen.height == old(self).screen.height,
                self.tool == old(self).tool,
                self.typing == old(self).typing,
                self.color_selected == old(self).color_selected,
                self.last_cursor_position == old(self).last_cursor_position,
            decreases 16 - c,
        {
            let chars = Pixel { color: Color::AnsiValue(c) }.to_chars();
            let name = String::from_str("color_selection_pixels");
            proof {
                reveal_strlit("color_selection_pixels");
            }
            let pos: (i32, i32) = (2 * c as i32, height as i32 - 1);
            let item = Item { name, offset: pos, chars };
            assert(item.grid() =~= seq![seq![pixel_cell(Color::AnsiValue(c)), pixel_cell(Color::AnsiValue(c))]]);
            let paints = item.draw(pos, width, height);
            let ghost prev = self.fg().items@;
            self.screen.layers[1].add_item(item);
            assert(self.fg().items@ == prev.push(item));
            assert(self.fg().items@.take(start.len() as int) =~= prev.take(start.len() as int));
            assert forall|k: int| 0 <= k < c + 1 implies is_swatch(#[trigger] self.fg().items@[start.len() + k], k, height as int) by {
                if k < c {
                    assert(self.fg().items@[start.len() + k] == prev[start.len() + k]);
                }
            }
            self.emit_paints(paints);
            c += 1;
        }
    }

    /// Hides the palette overlay: removes every swatch from the foreground
    /// and blanks the first 32 columns of the bottom row.
    pub fn erase_ansi_colors(&mut self)
        requires
            old(self).wf(),
        ensures
            final(self).wf(),
            final(self).config == Config::Idle,
            final(self).bg() == old(self).bg(),
            final(self).fg().offset == old(self).fg().offset,
            final(self).fg().items@ == old(self).fg().items@.filter(|x: Item| x.name@ != swatch_name()),
            final(self).out@ == old(self).out@ + paint_commands(blank_row_paints(32,
                old(self).screen.height - 1, old(self).screen.width as int, old(self).screen.height as int)),
            final(self).resized == old(self).resized,
            final(self).screen.width == old(self).screen.width,
            final(self).screen.height == old(self).screen.height,
            final(self).tool == old(self).tool,
            final(self).typing == old(self).typing,
            final(self).color_selected == old(self).color_selected,
            final(self).last_cursor_position == old(self).last_cursor_position,
    {
        self.config = Config::Idle;
        let name = String::from_str("color_selection_pixels");
        proof {
            reveal_strlit("color_selection_pixels");
        }
        self.screen.layers[1].remove_items_named(&name);
        assert((|x: Item| x.name@ != name@) =~= (|x: Item| x.name@ != swatch_name()));
        let width = self.screen.width;
        let height = self.screen.height;
        let ghost start = self.out@;
        let blank = empty_term_char();
        let mut c: i32 = 0;
        while c < 32
            invariant
                0 <= c <= 32,
                self.wf(),
                self.config == Config::Idle,
                self.bg() == old(self).bg(),
                self.fg().offset == old(self).fg().offset,
                self.fg().items@ == old(self).fg().items@.filter(|x: Item| x.name@ != swatch_name()),
                self.out@ == start + paint_commands(blank_row_paints(c as int, height - 1, width as int, height as int)),
                self.resized == old(self).resized,
                start == old(self).out@,
                blank == empty_cell(),
                width == old(self).screen.width,
                height == old(self).screen.height,
                self.screen.width == old(self).screen.width,
                self.screen.height == old(self).screen.height,
                self.tool == old(self).tool,
                self.typing == old(self).typing,
                self.color_selected == old(self).color_selected,
                self.last_cursor_position == old(self).last_cursor_position,
            decreases 32 - c,
        {
            if let Some(p) = blank.draw((c, height as i32 - 1), width, height) {
                self.out.push(TermCommand::Paint(p));
            }
            assert(self.out@ =~= start + paint_commands(blank_row_paints(c + 1, height - 1, width as int, height as int)));
            c += 1;
        }
    }

    /// Takes the terminal's new size: the screen is cleared, the cursor
    /// glyph and readout move to their corners, and the next pointer event
    /// redraws both layers.
    pub fn on_resize_event(&mut self, width: u16, height: u16) -> (r: bool)
        requires
            old(self).wf(),
        ensures
            !r,
            final(self).wf(),
            final(self).screen.width == width,
            final(self).screen.height == height,
            final(self).screen.layers == old(self).screen.layers,
            final(self).resized,
            final(self).cursor.offset.0 == width - 1,
            final(self).cursor.offset.1 == 0,
            final(self).cursor_info.offset.0 == width - 9,
            final(self).cursor_info.offset.1 == height - 1,
            final(self).tool == old(self).tool,
            final(self).config == old(self).config,
            final(self).typing == old(self).typing,
            final(self).color_selected == old(self).color_selected,
            final(self).last_cursor_position == old(self).last_cursor_position,
            final(self).out@ == old(self).out@.push(TermCommand::Clear),
    {
        self.clear_screen();
        self.screen.width = width;
        self.screen.height = height;
        self.cursor_info.offset = (width as i32 - 9, height as i32 - 1);
        self.cursor.offset = (width as i32 - 1, 0);
        self.resized = true;
        false
    }

    /// Brush press at screen `(col, row)`: a new pixel of the active color
    /// is appended to the background and drawn, and mirrored to the peer.
    fn brush_at(&mut self, col: u16, row: u16, client: &mut Option<Client>)
        requires
            old(self).wf(),
        ensures
            final(self).wf(),
            final(self).bg().items@.len() == old(self).bg().items@.len() + 1,
            final(self).bg().items@.drop_last() == old(self).bg().items@,
            is_brush_item(final(self).bg().items@.last(), old(self).bg().offset, col as int, row as int,
                old(self).color_selected),
            final(self).bg().offset == old(self).bg().offset,
            final(self).fg() == old(self).fg(),
            published(*old(client), *final(client), UpdateView::TermChar(brush_placement(
                col - old(self).bg().offset.0, row - old(self).bg().offset.1, old(self).color_selected))),
            final(self).screen.width == old(self).screen.width,
            final(self).screen.height == old(self).screen.height,
            final(self).tool == old(self).tool,
            final(self).config == old(self).config,
            final(self).typing == old(self).typing,
            final(self).color_selected == old(self).color_selected,
            final(self).last_cursor_position == old(self).last_cursor_position,
            final(self).resized == old(self).resized,
    {
        let rel = self.screen.layers[0].relative_position(col, row);
        let chars = Pixel { color: self.color_selected }.to_chars();
        let name = String::from_str("P");
        proof {
            reveal_strlit("P");
        }
        assert(name@ =~= seq!['P']);
        let pixel = Item { name, offset: rel, chars };
        assert(pixel.grid() =~= seq![seq![pixel_cell(self.color_selected), pixel_cell(self.color_selected)]]);
        let ghost made = pixel;
        match client {
            Some(c) => {
                let copy = pixel.clone();
                proof {
                    assert(copy.grid()[0] == copy.chars@[0]@);
                    assert(copy.chars@[0]@[0] == pixel_cell(self.color_selected));
                }
                let placement = SerializableTermChar::from_pixel(copy, rel.0, rel.1);
                c.publish(Update::TermChar(placement));
            },
            None => {},
        }
        let paints = pixel.draw((col as i32, row as i32), self.screen.width, self.screen.height);
        let ghost prev = self.bg().items@;
        self.screen.layers[0].add_item(pixel);
        assert(self.bg().items@.drop_last() =~= prev);
        assert(self.bg().items@.last() == made);
        self.emit_paints(paints);
    }

    /// Erase press at screen `(col, row)`: the first background item there,
    /// if any, is blanked on screen, removed, and the removal is mirrored
    /// to the peer, keyed by the item's offset.
    fn erase_at(&mut self, col: u16, row: u16, client: &mut Option<Client>)
        requires
            old(self).wf(),
        ensures
            final(self).wf(),
            final(self).bg().items@ == erased(old(self).bg().items@, old(self).bg().offset, col as int, row as int),
            final(self).bg().offset == old(self).bg().offset,
            final(self).fg() == old(self).fg(),
            match first_hit(old(self).bg().items@, old(self).bg().offset, col as int, row as int) {
                Some(i) => published(*old(client), *final(client), UpdateView::Erase(SerializableErase {
                    abs_x: old(self).bg().items@[i].offset.0,
                    abs_y: old(self).bg().items@[i].offset.1,
                })),
                None => *final(client) == *old(client),
            },
            final(self).screen.width == old(self).screen.width,
            final(self).screen.height == old(self).screen.height,
            final(self).tool == old(self).tool,
            final(self).config == old(self).config,
            final(self).typing == old(self).typing,
            final(self).color_selected == old(self).color_selected,
            final(self).last_cursor_position == old(self).last_cursor_position,
            final(self).resized == old(self).resized,
    {
        let found = self.screen.layers[0].item_index_at((col as i64, row as i64));
        if let Some(i) = found {
            proof {
                lemma_first_hit(self.bg().items@, self.bg().offset, col as int, row as int);
            }
            let paints = self.screen.layers[0].items[i].erase(self.screen.layers[0].offset, self.screen.width,
                self.screen.height);
            let key = self.screen.layers[0].items[i].offset;
            match client {
                Some(c) => {
                    c.publish(Update::Erase(SerializableErase { abs_x: key.0, abs_y: key.1 }));
                },
                None => {},
            }
            self.screen.layers[0].remove_item_at(i);
            self.emit_paints(paints);
        }
    }

    /// Ink press at screen `(col, row)`: over a background item, its cell's
    /// background becomes the active color and the brush is selected; over
    /// empty canvas, the eraser is selected.
    fn ink_at(&mut self, col: u16, row: u16)
        requires
            old(self).wf(),
        ensures
            final(self).wf(),
            final(self).screen == old(self).screen,
            match first_hit(old(self).bg().items@, old(self).bg().offset, col as int, row as int) {
                Some(i) => final(self).tool == Tool::Brush && final(self).color_selected == cell_at(
                    old(self).bg().items@[i], old(self).bg().offset, col as int, row as int).background_color,
                None => final(self).tool == Tool::Erase && final(self).color_selected == old(self).color_selected,
            },
            final(self).config == old(self).config,
            final(self).typing == old(self).typing,
            final(self).last_cursor_position == old(self).last_cursor_position,
            final(self).resized == old(self).resized,
            final(self).out == old(self).out,
    {
        match self.screen.layers[0].item_index_at((col as i64, row as i64)) {
            Some(i) => {
                proof {
                    lemma_first_hit(self.bg().items@, self.bg().offset, col as int, row as int);
                }
                let layer = &self.screen.layers[0];
                if let Some(cell) = layer.items[i].cell_under(layer.offset, (col as i64, row as i64)) {
                    self.color_selected = cell.background_color;
                }
                self.tool = Tool::Brush;
            },
            None => {
                self.tool = Tool::Erase;
            },
        }
    }

    /// Move press at screen `(col, row)`: the background is panned by the
    /// pointer's travel since the last event, unless that would take it
    /// past `PAN_LIMIT`, and both layers are recomposited.
    fn move_to(&mut self, col: u16, row: u16)
        requires
            old(self).wf(),
        ensures
            final(self).wf(),
            ({
                let d = (col - old(self).last_cursor_position.0, row - old(self).last_cursor_position.1);
                if pan_ok(old(self).bg().offset, d) {
                    final(self).bg().is_pan_of(old(self).bg(), (d.0 as i32, d.1 as i32))
                } else {
                    final(self).bg() == old(self).bg()
                }
            }),
            final(self).fg() == old(self).fg(),
            final(self).screen.width == old(self).screen.width,
            final(self).screen.height == old(self).screen.height,
            final(self).tool == old(self).tool,
            final(self).config == old(self).config,
            final(self).typing == old(self).typing,
            final(self).color_selected == old(self).color_selected,
            final(self).last_cursor_position == old(self).last_cursor_position,
            final(self).resized == old(self).resized,
    {
        let d: (i32, i32) = (col as i32 - self.last_cursor_position.0 as i32, row as i32 - self.last_cursor_position.1 as i32);
        let off = self.screen.layers[0].offset;
        let nx: i64 = off.0 as i64 + d.0 as i64;
        let ny: i64 = off.1 as i64 + d.1 as i64;
        if -(PAN_LIMIT as i64) <= nx && nx <= PAN_LIMIT as i64 && -(PAN_LIMIT as i64) <= ny && ny <= PAN_LIMIT as i64 {
            self.screen.layers[0].move_layer(d);
        }
        let width = self.screen.width;
        let height = self.screen.height;
        let frame = self.screen.layers[0].draw_buffer(width, height);
        self.out.push(TermCommand::Frame(frame));
        let paints = self.screen.layers[1].redraw(width, height);
        self.emit_paints(paints);
    }

    /// Redraws the cursor glyph for the active tool and the coordinate
    /// readout for screen `(col, row)` relative to the background.
    fn update_cursor(&mut self, col: u16, row: u16)
        requires
            old(self).wf(),
        ensures
            final(self).wf(),
            final(self).screen == old(self).screen,
            final(self).cursor.grid() == seq![seq![tool_glyph(old(self).tool, old(self).color_selected)]],
            final(self).cursor_info.grid() == seq![readout(col - old(self).bg().offset.0,
                row - old(self).bg().offset.1).map_values(|c: char| info_cell(c))],
            final(self).cursor.offset == old(self).cursor.offset,
            final(self).cursor_info.offset == old(self).cursor_info.offset,
            final(self).tool == old(self).tool,
            final(self).config == old(self).config,
            final(self).typing == old(self).typing,
            final(self).color_selected == old(self).color_selected,
            final(self).last_cursor_position == old(self).last_cursor_position,
            final(self).resized == old(self).resized,
    {
        let width = self.screen.width;
        let height = self.screen.height;
        let paints = self.cursor.erase((0, 0), width, height);
        self.emit_paints(paints);
        let glyph = self.cursor_term_char();
        let mut glyph_row: Vec<TermChar> = Vec::new();
        glyph_row.push(glyph);
        let mut rows: Vec<Vec<TermChar>> = Vec::new();
        rows.push(glyph_row);
        self.cursor.chars = rows;
        assert(self.cursor.grid() =~= seq![seq![tool_glyph(self.tool, self.color_selected)]]);
        let paints = self.cursor.redraw((0, 0), width, height);
        self.emit_paints(paints);

        let paints = self.cursor_info.erase((0, 0), width, height);
        self.emit_paints(paints);
        let off = self.screen.layers[0].offset;
        let info = self.create_cursor_info_chars((col as i32 - off.0, row as i32 - off.1));
        self.cursor_info.chars = info;
        assert(self.cursor_info.grid() =~= seq![readout(col - off.0, row - off.1).map_values(|c: char| info_cell(c))]);
        let paints = self.cursor_info.redraw((0, 0), width, height);
        self.emit_paints(paints);
    }

    /// What a left press at screen `(col, row)` does to the canvas, the
    /// tool state and the peer queue, given the state before it.
    pub open spec fn press_effect(o: DrawTerm, f: DrawTerm, oc: Option<Client>, fc: Option<Client>,
        col: int, row: int) -> bool {
        match first_hit(o.fg().items@, o.fg().offset, col, row) {
            Some(i) => {
                &&& f.bg() == o.bg()
                &&& fc == oc
                &&& f.typing == o.typing
                &&& if o.fg().items@[i].name@ == swatch_name() {
                    &&& f.color_selected == cell_at(o.fg().items@[i], o.fg().offset, col, row).background_color
                    &&& f.tool == Tool::Brush
                    &&& f.config == Config::Idle
                    &&& f.fg().items@ == o.fg().items@.filter(|x: Item| x.name@ != swatch_name())
                } else {
                    &&& f.color_selected == o.color_selected
                    &&& f.tool == o.tool
                    &&& f.config == o.config
                    &&& f.fg() == o.fg()
                }
            },
            None => {
                &&& f.fg() == o.fg()
                &&& f.config == o.config
                &&& match o.tool {
                    Tool::Brush => {
                        &&& f.bg().items@.len() == o.bg().items@.len() + 1
                        &&& f.bg().items@.drop_last() == o.bg().items@
                        &&& is_brush_item(f.bg().items@.last(), o.bg().offset, col, row, o.color_selected)
                        &&& f.bg().offset == o.bg().offset
                        &&& published(oc, fc, UpdateView::TermChar(brush_placement(
                            col - o.bg().offset.0, row - o.bg().offset.1, o.color_selected)))
                        &&& f.tool == o.tool && f.color_selected == o.color_selected && f.typing == o.typing
                    },
                    Tool::Erase => {
                        &&& f.bg().items@ == erased(o.bg().items@, o.bg().offset, col, row)
                        &&& f.bg().offset == o.bg().offset
                        &&& match first_hit(o.bg().items@, o.bg().offset, col, row) {
                            Some(j) => published(oc, fc, UpdateView::Erase(SerializableErase {
                                abs_x: o.bg().items@[j].offset.0,
                                abs_y: o.bg().items@[j].offset.1,
                            })),
                            None => fc == oc,
                        }
                        &&& f.tool == o.tool && f.color_selected == o.color_selected && f.typing == o.typing
                    },
                    Tool::Ink => {
                        &&& f.bg() == o.bg()
                        &&& fc == oc
                        &&& f.typing == o.typing
                        &&& match first_hit(o.bg().items@, o.bg().offset, col, row) {
                            Some(j) => f.tool == Tool::Brush && f.color_selected == cell_at(
                                o.bg().items@[j], o.bg().offset, col, row).background_color,
                            None => f.tool == Tool::Erase && f.color_selected == o.color_selected,
                        }
                    },
                    Tool::Move => {
                        let d = (col - o.last_cursor_position.0, row - o.last_cursor_position.1);
                        &&& if pan_ok(o.bg().offset, d) {
                            f.bg().is_pan_of(o.bg(), (d.0 as i32, d.1 as i32))
                        } else {
                            f.bg() == o.bg()
                        }
                        &&& fc == oc
                        &&& f.tool == o.tool && f.color_selected == o.color_selected && f.typing == o.typing
                    },
                    Tool::Text => {
                        &&& f.bg() == o.bg()
                        &&& fc == oc
                        &&& f.tool == o.tool && f.color_selected == o.color_selected
                        &&& f.typing
                        &&& !o.typing ==> f.last_cursor_position == (col as u16, row as u16)
                        &&& o.typing ==> f.last_cursor_position == o.last_cursor_position
                    },
                }
            },
        }
    }

    /// Handles a pointer event. Nothing happens while the connection
    /// screen is shown. A left press or drag over a foreground item picks
    /// a palette swatch, which selects the brush (over other overlay items
    /// it does nothing); elsewhere it acts with the active tool. On every
    /// event the cursor glyph and coordinate readout are then redrawn, and
    /// the pointer position is recorded outside a text session.
    pub fn on_mouse_event(&mut self, event: MouseEvent, client: &mut Option<Client>) -> (r: bool)
        requires
            old(self).wf(),
        ensures
            !r,
            final(self).wf(),
            old(self).config == Config::Connection ==> *final(self) == *old(self) && *final(client) == *old(client),
            old(self).config != Config::Connection && is_left_press(event.kind) ==> Self::press_effect(
                *old(self), *final(self), *old(client), *final(client), pointer_col(event) as int, event.row as int),
            old(self).config != Config::Connection && !is_left_press(event.kind) ==> {
                &&& final(self).bg() == old(self).bg()
                &&& final(self).fg() == old(self).fg()
                &&& *final(client) == *old(client)
                &&& final(self).tool == old(self).tool
                &&& final(self).color_selected == old(self).color_selected
                &&& final(self).typing == old(self).typing
            },
            old(self).config != Config::Connection ==> {
                &&& !final(self).resized
                &&& final(self).cursor.grid() == seq![seq![tool_glyph(final(self).tool, final(self).color_selected)]]
                &&& final(self).cursor_info.grid() == seq![readout(pointer_col(event) - final(self).bg().offset.0,
                    event.row - final(self).bg().offset.1).map_values(|c: char| info_cell(c))]
                &&& !final(self).typing ==> final(self).last_cursor_position == (pointer_col(event), event.row)
            },
            final(self).screen.width == old(self).screen.width,
            final(self).screen.height == old(self).screen.height,
    {
        if self.config == Config::Connection {
            return false;
        }
        let col: u16 = event.column - event.column % 2;
        let row: u16 = event.row;
        self.out.push(TermCommand::MoveTo(col, row));
        if self.resized {
            self.resized = false;
            let width = self.screen.width;
            let height = self.screen.height;
            let paints = self.screen.layers[0].redraw(width, height);
            self.emit_paints(paints);
            let paints = self.screen.layers[1].redraw(width, height);
            self.emit_paints(paints);
        }
        let ghost o = *self;
        let ghost oc = *client;
        let left = match event.kind {
            MouseEventKind::Down(MouseButton::Left) | MouseEventKind::Drag(MouseButton::Left) => true,
            _ => false,
        };
        if left {
            match self.screen.layers[1].item_index_at((col as i64, row as i64)) {
                Some(i) => {
                    proof {
                        lemma_first_hit(self.fg().items@, self.fg().offset, col as int, row as int);
                    }
                    let swatch = String::from_str("color_selection_pixels");
                    proof {
                        reveal_strlit("color_selection_pixels");
                    }
                    let layer = &self.screen.layers[1];
                    let item = &layer.items[i];
                    if item.name == swatch {
                        if let Some(cell) = item.cell_under(layer.offset, (col as i64, row as i64)) {
                            self.color_selected = cell.background_color;
                        }
                        self.tool = Tool::Brush;
                        self.erase_ansi_colors();
                    }
                },
                None => {
                    match self.tool {
                        Tool::Brush => self.brush_at(col, row, client),
                        Tool::Erase => self.erase_at(col, row, client),
                        Tool::Ink => self.ink_at(col, row),
                        Tool::Move => self.move_to(col, row),
                        Tool::Text => {
                            if !self.typing {
                                self.typing = true;
                                self.last_cursor_position = (col, row);
                                self.out.push(TermCommand::ShowCursor);
                                self.out.push(TermCommand::MoveTo(col, row));
                            }
                        },
                    }
                },
            }
        }
        self.update_cursor(col, row);
        if !self.typing {
            self.last_cursor_position = (col, row);
        }
        false
    }

    /// Applies one inbound update to the background layer.
    pub fn apply_update(&mut self, update: Update)
        requires
            old(self).wf(),
        ensures
            final(self).wf(),
            applied(old(self).bg().items@, final(self).bg().items@, old(self).bg().offset, update@),
            final(self).bg().offset == old(self).bg().offset,
            final(self).fg() == old(self).fg(),
            final(self).screen.width == old(self).screen.width,
            final(self).screen.height == old(self).screen.height,
            final(self).tool == old(self).tool,
            final(self).config == old(self).config,
            final(self).typing == old(self).typing,
            final(self).color_selected == old(self).color_selected,
            final(self).last_cursor_position == old(self).last_cursor_position,
    {
        match update {
            Update::TermChar(tc) => {
                let cell = TermChar {
                    character: tc.character,
                    foreground_color: Color::AnsiValue(tc.foreground_color),
                    background_color: Color::AnsiValue(tc.background_color),
                    empty: tc.empty,
                };
                let mut row: Vec<TermChar> = Vec::new();
                row.push(cell);
                row.push(cell);
                assert(row@ =~= seq![cell, cell]);
                let mut chars: Vec<Vec<TermChar>> = Vec::new();
                chars.push(row);
                let name = String::from_str("pixel");
                proof {
                    reveal_strlit("pixel");
                }
                assert(name@ =~= seq!['p', 'i', 'x', 'e', 'l']);
                let item = Item { name, offset: (tc.abs_x, tc.abs_y), chars };
                assert(item.grid() =~= seq![seq![cell, cell]]);
                let ghost made = item;
                self.screen.layers[0].remove_items_at_offset((tc.abs_x, tc.abs_y));
                assert((|x: Item| x.offset != (tc.abs_x, tc.abs_y)) =~= (|x: Item| x.offset != (tc.abs_x, tc.abs_y)));
                let ghost prev = self.bg().items@;
                self.screen.layers[0].add_item(item);
                assert(self.bg().items@.drop_last() =~= prev);
                assert(self.bg().items@.last() == made);
            },
            Update::Erase(erase) => {
                let off = self.screen.layers[0].offset;
                let p: (i64, i64) = (erase.abs_x as i64 + off.0 as i64, erase.abs_y as i64 + off.1 as i64);
                if let Some(i) = self.screen.layers[0].item_index_at(p) {
                    proof {
                        lemma_first_hit(self.bg().items@, self.bg().offset, p.0 as int, p.1 as int);
                    }
                    let paints = self.screen.layers[0].items[i].erase(off, self.screen.width, self.screen.height);
                    self.screen.layers[0].remove_item_at(i);
                    self.emit_paints(paints);
                }
            },
            Update::Sync(_) => {},
        }
    }

    /// Applies one inbound record; a record that is not the record of any
    /// update is dropped, and `false` returned.
    pub fn apply_record(&mut self, rec: &[u8]) -> (r: bool)
        requires
            old(self).wf(),
        ensures
            final(self).wf(),
            r == (decoded(rec@) is Some),
            match decoded(rec@) {
                Some(u) => applied(old(self).bg().items@, final(self).bg().items@, old(self).bg().offset, u),
                None => final(self).bg() == old(self).bg(),
            },
            final(self).bg().offset == old(self).bg().offset,
            final(self).fg() == old(self).fg(),
            final(self).screen.width == old(self).screen.width,
            final(self).screen.height == old(self).screen.height,
            final(self).tool == old(self).tool,
            final(self).config == old(self).config,
            final(self).typing == old(self).typing,
            final(self).color_selected == old(self).color_selected,
            final(self).last_cursor_position == old(self).last_cursor_position,
    {
        match decode_record(rec) {
            Some(u) => {
                self.apply_update(u);
                true
            },
            None => false,
        }
    }

    /// Drains the inbound chunks, applying every record in them in order;
    /// a malformed record is dropped without affecting the ones after it.
    /// Returns how many records were dropped.
    pub fn on_netowrk_update_events(&mut self, updates: &mut VecDeque<Vec<u8>>, client: &mut Option<Client>) -> (r: usize)
        requires
            old(self).wf(),
        ensures
            final(self).wf(),
            final(updates)@.len() == 0,
            applied_records(old(self).bg().items@, final(self).bg().items@, old(self).bg().offset,
                chunk_records(old(updates)@)),
            old(updates)@.len() == 0 ==> *final(self) == *old(self),
            *final(client) == *old(client),
            final(self).bg().offset == old(self).bg().offset,
            final(self).fg() == old(self).fg(),
            final(self).screen.width == old(self).screen.width,
            final(self).screen.height == old(self).screen.height,
            final(self).tool == old(self).tool,
            final(self).config == old(self).config,
            final(self).typing == old(self).typing,
            final(self).color_selected == old(self).color_selected,
            final(self).last_cursor_position == old(self).last_cursor_position,
    {
        let ghost start = self.bg().items@;
        let ghost off = self.bg().offset;
        let ghost all = chunk_records(updates@);
        let ghost mut done: Seq<Seq<u8>> = seq![];
        let mut dropped: usize = 0;
        while updates.len() > 0
            invariant
                self.wf(),
                *client == *old(client),
                off == old(self).bg().offset,
                start == old(self).bg().items@,
                all == chunk_records(old(updates)@),
                all == done + chunk_records(updates@),
                updates@.len() <= old(updates)@.len(),
                old(updates)@.len() == 0 ==> *self == *old(self),
                applied_records(start, self.bg().items@, off, done),
                self.bg().offset == old(self).bg().offset,
                self.fg() == old(self).fg(),
                self.screen.width == old(self).screen.width,
                self.screen.height == old(self).screen.height,
                self.tool == old(self).tool,
                self.config == old(self).config,
                self.typing == old(self).typing,
                self.color_selected == old(self).color_selected,
                self.last_cursor_position == old(self).last_cursor_position,
            decreases updates@.len(),
        {
            proof {
                lemma_chunk_records_front(updates@);
            }
            let ghost before = updates@;
            let chunk = match updates.pop_front() {
                Some(c) => c,
                None => Vec::new(),
            };
            assert(updates@ =~= before.drop_first());
            let records = split_records(chunk.as_slice());
            let ghost recs = records_of(chunk@);
            let ghost base = done;
            let mut i: usize = 0;
            while i < records.len()
                invariant
                    0 <= i <= records@.len(),
                    records@.len() == recs.len(),
                    forall|n: int| 0 <= n < recs.len() ==> (#[trigger] records@[n])@ == recs[n],
                    done == base + recs.take(i as int),
                    applied_records(start, self.bg().items@, off, done),
                    self.wf(),
                    off == old(self).bg().offset,
                    self.bg().offset == old(self).bg().offset,
                    self.fg() == old(self).fg(),
                    self.screen.width == old(self).screen.width,
                    self.screen.height == old(self).screen.height,
                    self.tool == old(self).tool,
                    self.config == old(self).config,
                    self.typing == old(self).typing,
                    self.color_selected == old(self).color_selected,
                    self.last_cursor_position == old(self).last_cursor_position,
                decreases records@.len() - i,
            {
                let ghost mid = self.bg().items@;
                let ghost prev_done = done;
                if !self.apply_record(records[i].as_slice()) {
                    dropped = dropped.saturating_add(1);
                }
                proof {
                    done = base + recs.take(i + 1);
                    assert(done.drop_last() =~= prev_done);
                    assert(done.last() == records@[i as int]@);
                    assert(applied_record(mid, self.bg().items@, off, done.last()));
                }
                i += 1;
            }
            proof {
                assert(recs.take(recs.len() as int) =~= recs);
                assert(all =~= done + chunk_records(updates@));
            }
        }
        proof {
            assert(chunk_records(updates@) =~= Seq::<Seq<u8>>::empty());
            assert(done =~= all);
        }
        dropped
    }

    /// One network step of the main loop: applies the chunks the peers
    /// sent, and when any arrived, recomposites the background into one
    /// frame. Returns how many records were dropped.
    pub fn tick(&mut self, updates: &mut VecDeque<Vec<u8>>, client: &mut Option<Client>) -> (r: usize)
        requires
            old(self).wf(),
        ensures
            final(self).wf(),
            final(updates)@.len() == 0,
            applied_records(old(self).bg().items@, final(self).bg().items@, old(self).bg().offset,
                chunk_records(old(updates)@)),
            *final(client) == *old(client),
            final(self).bg().offset == old(self).bg().offset,
            final(self).fg() == old(self).fg(),
            old(updates)@.len() > 0 ==> match final(self).out@.last() {
                TermCommand::Frame(f) => f@ == frame_text(final(self).bg().items@, final(self).bg().offset,
                    old(self).screen.width as int, old(self).screen.height as int),
                _ => false,
            },
            old(updates)@.len() == 0 ==> final(self).out == old(self).out,
            final(self).tool == old(self).tool,
            final(self).config == old(self).config,
            final(self).typing == old(self).typing,
            final(self).color_selected == old(self).color_selected,
    {
        let must_update = updates.len() > 0;
        let dropped = self.on_netowrk_update_events(updates, client);
        if must_update {
            let width = self.screen.width;
            let height = self.screen.height;
            let frame = self.screen.layers[0].draw_buffer(width, height);
            self.out.push(TermCommand::Frame(frame));
        }
        dropped
    }

    /// Handles a key event. In a text session: a character is typed at the
    /// caret, which then moves one cell right; Backspace removes the item
    /// one cell left of the caret and moves the caret back to it; Enter or
    /// Esc ends the session and selects the brush. Otherwise, on a press:
    /// `q` asks to quit (the result is `true`), `e`, `b`, `i`, `m` and `a`
    /// select the eraser, brush, ink, move and text tools, `c` toggles the
    /// palette overlay, and `x` toggles the connection screen.
    pub fn on_key_event(&mut self, event: KeyEvent, client: &Option<Client>) -> (r: bool)
        requires
            old(self).wf(),
        ensures
            final(self).wf(),
            r == (!old(self).typing && event.kind == KeyEventKind::Press && event.code == KeyCode::Char('q')),
            final(self).screen.width == old(self).screen.width,
            final(self).screen.height == old(self).screen.height,
            final(self).bg().offset == old(self).bg().offset,
            old(self).typing ==> final(self).fg() == old(self).fg() && final(self).config == old(self).config
                && final(self).color_selected == old(self).color_selected,
            old(self).typing ==> match event.code {
                KeyCode::Char(c) => {
                    let pos = old(self).last_cursor_position;
                    &&& final(self).bg().items@.len() == old(self).bg().items@.len() + 1
                    &&& final(self).bg().items@.drop_last() == old(self).bg().items@
                    &&& is_text_item(final(self).bg().items@.last(), old(self).bg().offset, pos, c,
                        old(self).color_selected)
                    &&& final(self).last_cursor_position == (if pos.0 <= u16::MAX - 2 { (pos.0 + 2) as u16 } else { pos.0 }, pos.1)
                    &&& final(self).typing && final(self).tool == old(self).tool
                },
                KeyCode::Enter | KeyCode::Esc => {
                    &&& !final(self).typing
                    &&& final(self).tool == Tool::Brush
                    &&& final(self).bg() == old(self).bg()
                },
                KeyCode::Backspace => {
                    let pos = old(self).last_cursor_position;
                    &&& final(self).typing && final(self).tool == old(self).tool
                    &&& if pos.0 >= 2 {
                        let hit = first_hit(old(self).bg().items@, old(self).bg().offset, pos.0 - 2, pos.1 as int);
                        &&& final(self).bg().items@ == erased(old(self).bg().items@, old(self).bg().offset, pos.0 - 2, pos.1 as int)
                        &&& final(self).last_cursor_position == if hit is Some { ((pos.0 - 2) as u16, pos.1) } else { pos }
                    } else {
                        final(self).bg() == old(self).bg() && final(self).last_cursor_position == pos
                    }
                },
                KeyCode::Other => *final(self) == *old(self),
            },
            !old(self).typing ==> final(self).bg() == old(self).bg() && final(self).typing == old(self).typing
                && final(self).color_selected == old(self).color_selected,
            !old(self).typing && event.kind != KeyEventKind::Press ==> *final(self) == *old(self),
            !old(self).typing && event.kind == KeyEventKind::Press ==> match event.code {
                KeyCode::Char('q') => *final(self) == *old(self),
                KeyCode::Char('e') => final(self).tool == Tool::Erase && final(self).config == old(self).config
                    && final(self).screen == old(self).screen,
                KeyCode::Char('b') => final(self).tool == Tool::Brush && final(self).config == old(self).config
                    && final(self).screen == old(self).screen,
                KeyCode::Char('i') => final(self).tool == Tool::Ink && final(self).config == old(self).config
                    && final(self).screen == old(self).screen,
                KeyCode::Char('m') => final(self).tool == Tool::Move && final(self).config == old(self).config
                    && final(self).screen == old(self).screen,
                KeyCode::Char('a') => final(self).tool == Tool::Text && final(self).config == old(self).config
                    && final(self).screen == old(self).screen,
                KeyCode::Char('c') => match old(self).config {
                    Config::ColorSelection => final(self).config == Config::Idle && final(self).tool == old(self).tool
                        && final(self).fg().items@ == old(self).fg().items@.filter(|x: Item| x.name@ != swatch_name()),
                    Config::Connection => *final(self) == *old(self),
                    Config::Idle => {
                        &&& final(self).config == Config::ColorSelection
                        &&& final(self).tool == if old(self).tool == Tool::Erase { Tool::Brush } else { old(self).tool }
                        &&& final(self).fg().items@.len() == old(self).fg().items@.len() + 16
                        &&& final(self).fg().items@.take(old(self).fg().items@.len() as int) == old(self).fg().items@
                        &&& forall|c: int| 0 <= c < 16 ==> is_swatch(
                            #[trigger] final(self).fg().items@[old(self).fg().items@.len() + c], c, old(self).screen.height as int)
                    },
                },
                KeyCode::Char('x') => final(self).tool == old(self).tool && final(self).config == if old(self).config
                    == Config::Connection { Config::Idle } else { Config::Connection },
                _ => *final(self) == *old(self),
            },
    {
        if self.typing {
            match event.code {
                KeyCode::Char(c) => {
                    let pos = self.last_cursor_position;
                    let rel = self.screen.layers[0].relative_position(pos.0, pos.1);
                    let glyph = TermChar { character: c, foreground_color: self.color_selected, background_color: Color::Reset, empty: false };
                    let mut row: Vec<TermChar> = Vec::new();
                    row.push(glyph);
                    row.push(empty_term_char());
                    assert(row@ =~= seq![glyph, empty_cell()]);
                    let mut chars: Vec<Vec<TermChar>> = Vec::new();
                    chars.push(row);
                    let name = String::from_str("char");
                    proof {
                        reveal_strlit("char");
                    }
                    assert(name@ =~= seq!['c', 'h', 'a', 'r']);
                    let item = Item { name, offset: rel, chars };
                    assert(item.grid() =~= seq![seq![glyph, empty_cell()]]);
                    let ghost made = item;
                    let paints = item.draw((pos.0 as i32, pos.1 as i32), self.screen.width, self.screen.height);
                    let ghost prev = self.bg().items@;
                    self.screen.layers[0].add_item(item);
                    assert(self.bg().items@.drop_last() =~= prev);
                    assert(self.bg().items@.last() == made);
                    self.emit_paints(paints);
                    if pos.0 <= u16::MAX - 2 {
                        self.last_cursor_position = (pos.0 + 2, pos.1);
                    }
                    self.out.push(TermCommand::MoveTo(self.last_cursor_position.0, self.last_cursor_position.1));
                },
                KeyCode::Enter | KeyCode::Esc => {
                    self.typing = false;
                    self.tool = Tool::Brush;
                    self.out.push(TermCommand::HideCursor);
                },
                KeyCode::Backspace => {
                    let pos = self.last_cursor_position;
                    if pos.0 >= 2 {
                        let target: (i64, i64) = ((pos.0 - 2) as i64, pos.1 as i64);
                        if let Some(i) = self.screen.layers[0].item_index_at(target) {
                            proof {
                                lemma_first_hit(self.bg().items@, self.bg().offset, target.0 as int, target.1 as int);
                            }
                            let paints = self.screen.layers[0].items[i].erase(self.screen.layers[0].offset,
                                self.screen.width, self.screen.height);
                            self.screen.layers[0].remove_item_at(i);
                            self.emit_paints(paints);
                            self.last_cursor_position = (pos.0 - 2, pos.1);
                            self.out.push(TermCommand::MoveTo(pos.0 - 2, pos.1));
                        }
                    }
                },
                KeyCode::Other => {},
            }
            return false;
        }
        if event.kind != KeyEventKind::Press {
            return false;
        }
        match event.code {
            KeyCode::Char(c) => {
                if c == 'q' {
                    true
                } else if c == 'e' {
                    self.tool = Tool::Erase;
                    false
                } else if c == 'b' {
                    self.tool = Tool::Brush;
                    false
                } else if c == 'i' {
                    self.tool = Tool::Ink;
                    false
                } else if c == 'm' {
                    self.tool = Tool::Move;
                    false
                } else if c == 'a' {
                    self.tool = Tool::Text;
                    false
                } else if c == 'c' {
                    match self.config {
                        Config::ColorSelection => {
                            self.erase_ansi_colors();
                        },
                        Config::Connection => {},
                        Config::Idle => {
                            if self.tool == Tool::Erase {
                                self.tool = Tool::Brush;
                            }
                            self.draw_ansi_colors();
                        },
                    }
                    false
                } else if c == 'x' {
                    match self.config {
                        Config::Connection => {
                            self.config = Config::Idle;
                            self.clear_screen();
                            self.out.push(TermCommand::EnableMouseCapture);
                            let width = self.screen.width;
                            let height = self.screen.height;
                            let frame = self.screen.layers[0].draw_buffer(width, height);
                            self.out.push(TermCommand::Frame(frame));
                        },
                        _ => {
                            self.config = Config::Connection;
                            self.clear_screen();
                            self.out.push(TermCommand::MoveTo(0, 0));
                            let text = match client {
                                Some(c) => c.addr.clone(),
                                None => String::from_str("No server available. Rerun with host port options"),
                            };
                            self.out.push(TermCommand::Message(text));
                        },
                    }
                    false
                } else {
                    false
                }
            },
            _ => false,
        }
    }

    /// The glyph that shows the active tool; the brush is drawn in the
    /// active color, or white when that is palette color 0.
    pub fn cursor_term_char(&self) -> (r: TermChar)
        ensures
            r == tool_glyph(self.tool, self.color_selected),
    {
        match self.tool {
            Tool::Brush => {
                let mut fg_color = self.color_selected;
                if self.color_selected == Color::AnsiValue(0) {
                    fg_color = Color::White;
                }
                TermChar { character: 'B', foreground_color: fg_color, background_color: Color::Reset, empty: false }
            },
            Tool::Erase => TermChar { character: 'E', foreground_color: Color::White, background_color: Color::Reset, empty: false },
            Tool::Ink => TermChar { character: 'I', foreground_color: Color::White, background_color: Color::Reset, empty: false },
            Tool::Move => TermChar { character: 'M', foreground_color: Color::White, background_color: Color::Reset, empty: false },
            Tool::Text => TermChar { character: 'T', foreground_color: Color::White, background_color: Color::Reset, empty: false },
        }
    }

    /// The cells of the coordinate readout for canvas-relative `(col, row)`:
    /// one row, `col / 2` and `row` zero-padded to four characters each.
    pub fn create_cursor_info_chars(&self, col_row: (i32, i32)) -> (r: Vec<Vec<TermChar>>)
        ensures
            r@.len() == 1,
            r@[0]@ == readout(col_row.0 as int, col_row.1 as int).map_values(|c: char| info_cell(c)),
    {
        let col: i32 = col_row.0 / 2;
        assert(col == half(col_row.0 as int));
        let mut text = padded_chars(col as i64);
        let mut tail = padded_chars(col_row.1 as i64);
        text.push(' ');
        text.append(&mut tail);
        assert(text@ =~= readout(col_row.0 as int, col_row.1 as int));
        let mut chars: Vec<TermChar> = Vec::new();
        let mut i: usize = 0;
        while i < text.len()
            invariant
                0 <= i <= text@.len(),
                text@ == readout(col_row.0 as int, col_row.1 as int),
                chars@ == text@.take(i as int).map_values(|c: char| info_cell(c)),
            decreases text@.len() - i,
        {
            let ghost before = chars@;
            chars.push(TermChar { character: text[i], foreground_color: Color::Reset, background_color: Color::Reset, empty: false });
            assert(chars@[i as int] == info_cell(text@[i as int]));
            assert forall|j: int| 0 <= j < i implies chars@[j] == before[j] by {}
            assert(chars@ =~= text@.take(i + 1).map_values(|c: char| info_cell(c)));
            i += 1;
        }
        assert(text@.take(i as int) =~= text@);
        let mut rows: Vec<Vec<TermChar>> = Vec::new();
        rows.push(chars);
        rows
    }
}

} // verus!
