use vstd::prelude::*;

verus! {

/// A terminal color: the terminal's default, plain white, or an entry of the
/// 256-color palette.
#[derive(Clone, Copy, Debug, PartialEq, Eq, Structural)]
pub enum Color {
    Reset,
    White,
    AnsiValue(u8),
}

/// The smallest renderable unit: one character with its two colors. A cell
/// marked `empty` is transparent and contributes nothing when composited.
#[derive(Clone, Copy, Debug, PartialEq, Eq, Structural)]
pub struct TermChar {
    pub character: char,
    pub foreground_color: Color,
    pub background_color: Color,
    pub empty: bool,
}

/// One cell to be written at a screen position.
#[derive(Clone, Copy, Debug, PartialEq, Eq, Structural)]
pub struct Paint {
    pub col: u16,
    pub row: u16,
    pub cell: TermChar,
}

pub open spec fn empty_cell() -> TermChar {
    TermChar {
        character: ' ',
        foreground_color: Color::Reset,
        background_color: Color::Reset,
        empty: true,
    }
}

/// The transparent placeholder cell used to blank out screen positions.
pub fn empty_term_char() -> (r: TermChar)
    ensures
        r == empty_cell(),
{
    TermChar { character: ' ', foreground_color: Color::Reset, background_color: Color::Reset, empty: true }
}

/// Whether `(col, row)` lies on a `width` × `height` screen.
pub open spec fn on_screen(col: int, row: int, width: int, height: int) -> bool {
    0 <= col < width && 0 <= row < height
}

impl TermChar {
    /// The paint command for this cell at `col_row`, or `None` when the
    /// position is off the screen (drawing there is a silent no-op).
    pub fn draw(&self, col_row: (i32, i32), width: u16, height: u16) -> (r: Option<Paint>)
        ensures
            on_screen(col_row.0 as int, col_row.1 as int, width as int, height as int) ==> r
                == Some(Paint { col: col_row.0 as u16, row: col_row.1 as u16, cell: *self }),
            !on_screen(col_row.0 as int, col_row.1 as int, width as int, height as int) ==> r
                is None,
    {
        let (col, row) = col_row;
        if col < 0 || row < 0 {
            return None;
        }
        if col >= width as i32 || row >= height as i32 {
            return None;
        }
        Some(Paint { col: col as u16, row: row as u16, cell: *self })
    }
}

/// A solid block of one palette color.
#[derive(Clone, Copy, Debug, PartialEq, Eq, Structural)]
pub struct Pixel {
    pub color: Color,
}

/// The cell a pixel of color `c` is made of.
pub open spec fn pixel_cell(c: Color) -> TermChar {
    TermChar { character: ' ', foreground_color: c, background_color: c, empty: false }
}

impl Pixel {
    pub fn new(color: Color) -> (r: Pixel)
        ensures
            r.color == color,
    {
        Pixel { color }
    }

    /// One row of two identical opaque cells, since a screen cell is
    /// double-width in column terms.
    pub fn to_chars(&self) -> (r: Vec<Vec<TermChar>>)
        ensures
            r@.len() == 1,
            r@[0]@ == seq![pixel_cell(self.color), pixel_cell(self.color)],
    {
        let c = TermChar {
            character: ' ',
            foreground_color: self.color,
            background_color: self.color,
            empty: false,
        };
        let mut row: Vec<TermChar> = Vec::new();
        row.push(c);
        row.push(c);
        let mut rows: Vec<Vec<TermChar>> = Vec::new();
        rows.push(row);
        rows
    }
}

} // verus!
