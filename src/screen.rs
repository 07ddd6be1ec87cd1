use vstd::prelude::*;
use vstd::string::*;

use crate::cell::{Color, TermChar, Paint, empty_cell, empty_term_char, on_screen};

verus! {

/// The paints for one row of cells whose first cell sits at `(x0, y)`;
/// positions off the `w` × `h` screen are skipped. With `blank`, every
/// position is painted with the transparent placeholder instead.
pub open spec fn row_paints(cells: Seq<TermChar>, x0: int, y: int, w: int, h: int, blank: bool) -> Seq<Paint>
    decreases cells.len(),
{
    if cells.len() == 0 {
        seq![]
    } else {
        let x = x0 + cells.len() - 1;
        let rest = row_paints(cells.drop_last(), x0, y, w, h, blank);
        if on_screen(x, y, w, h) {
            let cell = if blank { empty_cell() } else { cells.last() };
            rest.push(Paint { col: x as u16, row: y as u16, cell })
        } else {
            rest
        }
    }
}

/// The paints for a grid of cells whose top-left cell sits at `(x0, y0)`,
/// row by row.
pub open spec fn grid_paints(rows: Seq<Seq<TermChar>>, x0: int, y0: int, w: int, h: int, blank: bool) -> Seq<Paint>
    decreases rows.len(),
{
    if rows.len() == 0 {
        seq![]
    } else {
        grid_paints(rows.drop_last(), x0, y0, w, h, blank)
            + row_paints(rows.last(), x0, y0 + rows.len() - 1, w, h, blank)
    }
}

/// The positions of the non-transparent cells of a row whose first cell
/// sits at `(x0, y)`, left to right.
pub open spec fn row_filled(cells: Seq<TermChar>, x0: int, y: int) -> Seq<(i32, i32)>
    decreases cells.len(),
{
    if cells.len() == 0 {
        seq![]
    } else {
        let rest = row_filled(cells.drop_last(), x0, y);
        if !cells.last().empty {
            rest.push(((x0 + cells.len() - 1) as i32, y as i32))
        } else {
            rest
        }
    }
}

/// The positions of the non-transparent cells of a grid whose top-left
/// cell sits at `(x0, y0)`, in row-major order.
pub open spec fn grid_filled(rows: Seq<Seq<TermChar>>, x0: int, y0: int) -> Seq<(i32, i32)>
    decreases rows.len(),
{
    if rows.len() == 0 {
        seq![]
    } else {
        grid_filled(rows.drop_last(), x0, y0) + row_filled(rows.last(), x0, y0 + rows.len() - 1)
    }
}

/// The character of a decimal digit.
pub open spec fn digit_char(d: nat) -> char {
    if d == 0 { '0' } else if d == 1 { '1' } else if d == 2 { '2' } else if d == 3 { '3' }
    else if d == 4 { '4' } else if d == 5 { '5' } else if d == 6 { '6' } else if d == 7 { '7' }
    else if d == 8 { '8' } else { '9' }
}

/// The decimal digits of `n`, without leading zeros.
pub open spec fn decimal(n: nat) -> Seq<char>
    decreases n,
{
    if n < 10 {
        seq![digit_char(n)]
    } else {
        decimal(n / 10).push(digit_char(n % 10))
    }
}

/// The escape sequence that paints one blank cell with palette background `c`
/// and then restores the default background.
pub open spec fn bg_token(c: u8) -> Seq<char> {
    seq!['\x1b', '[', '4', '8', ';', '5', ';'] + decimal(c as nat) + seq!['m', ' ', '\x1b', '[', '4', '9', 'm']
}

fn push_digit(s: &mut String, d: u8)
    requires
        d < 10,
    ensures
        final(s)@ == old(s)@.push(digit_char(d as nat)),
{
    let t: &str = if d == 0 { "0" } else if d == 1 { "1" } else if d == 2 { "2" } else if d == 3 { "3" }
        else if d == 4 { "4" } else if d == 5 { "5" } else if d == 6 { "6" } else if d == 7 { "7" }
        else if d == 8 { "8" } else { "9" };
    proof {
        reveal_strlit("0"); reveal_strlit("1"); reveal_strlit("2"); reveal_strlit("3");
        reveal_strlit("4"); reveal_strlit("5"); reveal_strlit("6"); reveal_strlit("7");
        reveal_strlit("8"); reveal_strlit("9");
    }
    s.append(t);
    assert(final(s)@ =~= old(s)@.push(digit_char(d as nat)));
}

/// The buffer token for a cell with palette background `c`.
pub fn color_token(c: u8) -> (r: String)
    ensures
        r@ == bg_token(c),
{
    let mut s = String::from_str("\x1b[48;5;");
    proof {
        reveal_strlit("\x1b[48;5;");
    }
    let ghost start = s@;
    if c >= 100 {
        push_digit(&mut s, c / 100);
    }
    if c >= 10 {
        push_digit(&mut s, (c / 10) % 10);
    }
    push_digit(&mut s, c % 10);
    proof {
        reveal_strlit("m \x1b[49m");
        let n = c as nat;
        if n >= 100 {
            assert(decimal(n / 100) == seq![digit_char(n / 100)]);
            assert((n / 10) / 10 == n / 100);
            assert(decimal(n / 10) == decimal(n / 100).push(digit_char((n / 10) % 10)));
        } else if n >= 10 {
            assert(decimal(n / 10) == seq![digit_char(n / 10)]);
            assert((n / 10) % 10 == n / 10);
        }
        assert(s@ =~= start + decimal(n));
    }
    s.append("m \x1b[49m");
    assert(s@ =~= bg_token(c));
    s
}

/// A named group of cells placed at an offset relative to the layer that
/// holds it. Row `r`, column `k` of `chars` sits at `offset + (k, r)`.
#[derive(Debug)]
pub struct Item {
    pub name: String,
    pub offset: (i32, i32),
    pub chars: Vec<Vec<TermChar>>,
}

impl Clone for Item {
    fn clone(&self) -> (r: Item)
        ensures
            r.name@ == self.name@,
            r.offset == self.offset,
            r.grid() == self.grid(),
    {
        let mut chars: Vec<Vec<TermChar>> = Vec::new();
        let mut i: usize = 0;
        while i < self.chars.len()
            invariant
                0 <= i <= self.chars@.len(),
                chars@.len() == i,
                forall|n: int| 0 <= n < i ==> (#[trigger] chars@[n])@ == self.chars@[n]@,
            decreases self.chars@.len() - i,
        {
            let src = &self.chars[i];
            let mut row: Vec<TermChar> = Vec::new();
            let mut j: usize = 0;
            while j < src.len()
                invariant
                    0 <= j <= src@.len(),
                    row@ == src@.take(j as int),
                decreases src@.len() - j,
            {
                row.push(src[j]);
                assert(row@ =~= src@.take(j + 1));
                j += 1;
            }
            assert(row@ =~= src@);
            chars.push(row);
            i += 1;
        }
        let r = Item { name: self.name.clone(), offset: self.offset, chars };
        assert(r.grid() =~= self.grid());
        r
    }
}

impl Item {
    /// The cell grid as rows of cells.
    pub open spec fn grid(&self) -> Seq<Seq<TermChar>> {
        self.chars@.map_values(|row: Vec<TermChar>| row@)
    }

    pub open spec fn has_cell(&self, r: int, k: int) -> bool {
        0 <= r < self.chars@.len() && 0 <= k < self.chars@[r]@.len()
    }

    /// Whether, under container offset `c`, the screen position `(x, y)` is
    /// one of this item's non-transparent cells.
    pub open spec fn fills(&self, c: (i32, i32), x: int, y: int) -> bool {
        let r = y - c.1 - self.offset.1;
        let k = x - c.0 - self.offset.0;
        self.has_cell(r, k) && !self.chars@[r]@[k].empty
    }

    /// Every cell position of this item under container offset `c` is
    /// representable as an `i32` pair.
    pub open spec fn positions_fit(&self, c: (i32, i32)) -> bool {
        &&& i32::MIN <= c.0 + self.offset.0 <= i32::MAX
        &&& i32::MIN <= c.1 + self.offset.1 <= i32::MAX
        &&& forall|r: int, k: int| #[trigger] self.has_cell(r, k) ==> {
            &&& c.0 + self.offset.0 + k <= i32::MAX
            &&& c.1 + self.offset.1 + r <= i32::MAX
        }
    }

    fn paint_grid(&self, x0: i64, y0: i64, width: u16, height: u16, blank: bool) -> (r: Vec<Paint>)
        ensures
            r@ == grid_paints(self.grid(), x0 as int, y0 as int, width as int, height as int, blank),
    {
        let mut out: Vec<Paint> = Vec::new();
        let mut i: usize = 0;
        while i < self.chars.len()
            invariant
                0 <= i <= self.chars@.len(),
                out@ == grid_paints(self.grid().take(i as int), x0 as int, y0 as int, width as int, height as int, blank),
            decreases self.chars@.len() - i,
        {
            let row = &self.chars[i];
            let ghost before = out@;
            let y: i128 = y0 as i128 + i as i128;
            let mut j: usize = 0;
            while j < row.len()
                invariant
                    0 <= j <= row@.len(),
                    row == self.chars@[i as int],
                    y == y0 + i,
                    out@ == before + row_paints(row@.take(j as int), x0 as int, y as int, width as int, height as int, blank),
                decreases row@.len() - j,
            {
                let x: i128 = x0 as i128 + j as i128;
                proof {
                    assert(row@.take(j + 1).drop_last() =~= row@.take(j as int));
                }
                if 0 <= x && x < width as i128 && 0 <= y && y < height as i128 {
                    let cell = if blank { empty_term_char() } else { row[j] };
                    out.push(Paint { col: x as u16, row: y as u16, cell });
                    assert(out@ =~= before + row_paints(row@.take(j + 1), x0 as int, y as int, width as int, height as int, blank));
                }
                j += 1;
            }
            proof {
                assert(row@.take(row@.len() as int) =~= row@);
                assert(self.grid().take(i + 1).drop_last() =~= self.grid().take(i as int));
                assert(self.grid().take(i + 1).last() == row@);
            }
            i += 1;
        }
        assert(self.grid().take(self.chars@.len() as int) =~= self.grid());
        out
    }

    /// The paints that put this item's cells with their top-left cell at
    /// `col_row`, skipping off-screen positions.
    pub fn draw(&self, col_row: (i32, i32), width: u16, height: u16) -> (r: Vec<Paint>)
        ensures
            r@ == grid_paints(self.grid(), col_row.0 as int, col_row.1 as int, width as int, height as int, false),
    {
        self.paint_grid(col_row.0 as i64, col_row.1 as i64, width, height, false)
    }

    /// The paints that put this item's cells at its own offset under
    /// container offset `c_offset`.
    pub fn redraw(&self, c_offset: (i32, i32), width: u16, height: u16) -> (r: Vec<Paint>)
        ensures
            r@ == grid_paints(self.grid(), c_offset.0 + self.offset.0, c_offset.1 + self.offset.1,
                width as int, height as int, false),
    {
        self.paint_grid(c_offset.0 as i64 + self.offset.0 as i64, c_offset.1 as i64 + self.offset.1 as i64,
            width, height, false)
    }

    /// The paints that blank every on-screen position this item occupies
    /// under container offset `c_offset`.
    pub fn erase(&self, c_offset: (i32, i32), width: u16, height: u16) -> (r: Vec<Paint>)
        ensures
            r@ == grid_paints(self.grid(), c_offset.0 + self.offset.0, c_offset.1 + self.offset.1,
                width as int, height as int, true),
    {
        self.paint_grid(c_offset.0 as i64 + self.offset.0 as i64, c_offset.1 as i64 + self.offset.1 as i64,
            width, height, true)
    }

    /// The filled positions under container offset `c`, in row-major order.
    pub open spec fn filled_positions(&self, c: (i32, i32)) -> Seq<(i32, i32)> {
        grid_filled(self.grid(), c.0 + self.offset.0, c.1 + self.offset.1)
    }

    /// Whether cell `(r, k)` comes before cell `(i, j)` in row-major order.
    pub open spec fn before(r: int, k: int, i: int, j: int) -> bool {
        r < i || (r == i && k < j)
    }

    /// The screen positions of every non-transparent cell under container
    /// offset `c_offset`: `p` is listed exactly when the cell at
    /// `p - (c_offset + offset)` exists and is not transparent, and no
    /// position is listed twice.
    pub fn get_filled_indexes(&self, c_offset: (i32, i32)) -> (r: Vec<(i32, i32)>)
        requires
            self.positions_fit(c_offset),
        ensures
            forall|p: (i32, i32)| r@.contains(p) <==> self.fills(c_offset, p.0 as int, p.1 as int),
            r@.no_duplicates(),
            r@ == self.filled_positions(c_offset),
    {
        let mut out: Vec<(i32, i32)> = Vec::new();
        let x0: i32 = c_offset.0 + self.offset.0;
        let y0: i32 = c_offset.1 + self.offset.1;
        let mut i: usize = 0;
        while i < self.chars.len()
            invariant
                0 <= i <= self.chars@.len(),
                self.positions_fit(c_offset),
                x0 == c_offset.0 + self.offset.0,
                y0 == c_offset.1 + self.offset.1,
                forall|n: int| 0 <= n < out@.len() ==> {
                    &&& self.fills(c_offset, out@[n].0 as int, out@[n].1 as int)
                    &&& Self::before(out@[n].1 - y0, out@[n].0 - x0, i as int, 0)
                },
                forall|r: int, k: int| #[trigger] self.has_cell(r, k) && !self.chars@[r]@[k].empty
                    && Self::before(r, k, i as int, 0) ==> out@.contains(((x0 + k) as i32, (y0 + r) as i32)),
                forall|n: int, m: int| 0 <= n < m < out@.len() ==> Self::before(
                    out@[n].1 - y0, out@[n].0 - x0, out@[m].1 - y0, out@[m].0 - x0),
                out@ == grid_filled(self.grid().take(i as int), x0 as int, y0 as int),
            decreases self.chars@.len() - i,
        {
            let row = &self.chars[i];
            let ghost start = out@;
            let mut j: usize = 0;
            while j < row.len()
                invariant
                    0 <= i < self.chars@.len(),
                    0 <= j <= row@.len(),
                    row == self.chars@[i as int],
                    self.positions_fit(c_offset),
                    x0 == c_offset.0 + self.offset.0,
                    y0 == c_offset.1 + self.offset.1,
                    forall|n: int| 0 <= n < out@.len() ==> {
                        &&& self.fills(c_offset, out@[n].0 as int, out@[n].1 as int)
                        &&& Self::before(out@[n].1 - y0, out@[n].0 - x0, i as int, j as int)
                    },
                    forall|r: int, k: int| #[trigger] self.has_cell(r, k) && !self.chars@[r]@[k].empty
                        && Self::before(r, k, i as int, j as int) ==> out@.contains(((x0 + k) as i32, (y0 + r) as i32)),
                    forall|n: int, m: int| 0 <= n < m < out@.len() ==> Self::before(
                        out@[n].1 - y0, out@[n].0 - x0, out@[m].1 - y0, out@[m].0 - x0),
                    out@ == start + row_filled(row@.take(j as int), x0 as int, y0 + i),
                decreases row@.len() - j,
            {
                assert(self.has_cell(i as int, j as int));
                assert(row@.take(j + 1).drop_last() =~= row@.take(j as int));
                if !row[j].empty {
                    assert(x0 + j <= i32::MAX && y0 + i <= i32::MAX);
                    let p: (i32, i32) = ((x0 as i64 + j as i64) as i32, (y0 as i64 + i as i64) as i32);
                    let ghost prev = out@;
                    out.push(p);
                    assert forall|r: int, k: int| #[trigger] self.has_cell(r, k) && !self.chars@[r]@[k].empty
                        && Self::before(r, k, i as int, j + 1) implies out@.contains(((x0 + k) as i32, (y0 + r) as i32)) by {
                        if r == i && k == j {
                            assert(out@[prev.len() as int] == p);
                        } else {
                            let w = choose|n: int| 0 <= n < prev.len() && prev[n] == ((x0 + k) as i32, (y0 + r) as i32);
                            assert(out@[w] == prev[w]);
                        }
                    }
                    assert(out@ =~= start + row_filled(row@.take(j + 1), x0 as int, y0 + i));
                }
                j += 1;
            }
            proof {
                assert(row@.take(row@.len() as int) =~= row@);
                assert(self.grid().take(i + 1).drop_last() =~= self.grid().take(i as int));
                assert(self.grid().take(i + 1).last() == row@);
            }
            i += 1;
        }
        assert(self.grid().take(self.chars@.len() as int) =~= self.grid());
        proof {
            assert forall|p: (i32, i32)| self.fills(c_offset, p.0 as int, p.1 as int) implies out@.contains(p) by {
                let r = p.1 - y0;
                let k = p.0 - x0;
                assert(self.has_cell(r, k));
                assert(((x0 + k) as i32, (y0 + r) as i32) == p);
            }
            assert forall|n: int, m: int| 0 <= n < out@.len() && 0 <= m < out@.len() && n != m
                implies out@[n] != out@[m] by {
                if n < m {
                    assert(Self::before(out@[n].1 - y0, out@[n].0 - x0, out@[m].1 - y0, out@[m].0 - x0));
                } else {
                    assert(Self::before(out@[m].1 - y0, out@[m].0 - x0, out@[n].1 - y0, out@[n].0 - x0));
                }
            }
        }
        out
    }

    /// The palette index that this item stamps into a compositing buffer at
    /// screen position `(x, y)` under container offset `c`: the background of
    /// the cell there, when the position is on the `w` × `h` screen and that
    /// background is a palette color.
    pub open spec fn stamp_at(&self, c: (i32, i32), x: int, y: int, w: int, h: int) -> Option<u8> {
        let r = y - c.1 - self.offset.1;
        let k = x - c.0 - self.offset.0;
        if on_screen(x, y, w, h) && self.has_cell(r, k) {
            match self.chars@[r]@[k].background_color {
                Color::AnsiValue(v) => Some(v),
                _ => None,
            }
        } else {
            None
        }
    }

    /// Writes one color token into `buffer[y][x]` for each on-screen cell
    /// whose background is a palette color; every other entry is left as it
    /// was, so transparent and default-colored cells never stamp the buffer.
    pub fn draw_buffer(&self, buffer: &mut Vec<Vec<String>>, c_offset: (i32, i32), width: u16, height: u16)
        requires
            old(buffer)@.len() >= height,
            forall|y: int| 0 <= y < height ==> #[trigger] old(buffer)@[y]@.len() >= width,
        ensures
            final(buffer)@.len() == old(buffer)@.len(),
            forall|y: int| 0 <= y < old(buffer)@.len() ==> #[trigger] final(buffer)@[y]@.len() == old(buffer)@[y]@.len(),
            forall|y: int, x: int| 0 <= y < old(buffer)@.len() && 0 <= x < old(buffer)@[y]@.len() ==>
                #[trigger] final(buffer)@[y]@[x]@ == match self.stamp_at(c_offset, x, y, width as int, height as int) {
                    Some(v) => bg_token(v),
                    None => old(buffer)@[y]@[x]@,
                },
    {
        let x0: i128 = c_offset.0 as i128 + self.offset.0 as i128;
        let y0: i128 = c_offset.1 as i128 + self.offset.1 as i128;
        let ghost w = width as int;
        let ghost h = height as int;
        let mut i: usize = 0;
        while i < self.chars.len()
            invariant
                0 <= i <= self.chars@.len(),
                x0 == c_offset.0 + self.offset.0,
                y0 == c_offset.1 + self.offset.1,
                w == width as int,
                h == height as int,
                buffer@.len() == old(buffer)@.len(),
                buffer@.len() >= height,
                forall|y: int| 0 <= y < buffer@.len() ==> #[trigger] buffer@[y]@.len() == old(buffer)@[y]@.len(),
                forall|y: int| 0 <= y < height ==> #[trigger] old(buffer)@[y]@.len() >= width,
                forall|y: int, x: int| 0 <= y < buffer@.len() && 0 <= x < buffer@[y]@.len() ==>
                    #[trigger] buffer@[y]@[x]@ == match self.stamp_at(c_offset, x, y, w, h) {
                        Some(v) => if Self::before(y - y0, x - x0, i as int, 0) { bg_token(v) } else { old(buffer)@[y]@[x]@ },
                        None => old(buffer)@[y]@[x]@,
                    },
            decreases self.chars@.len() - i,
        {
            let row = &self.chars[i];
            let y: i128 = y0 + i as i128;
            let mut j: usize = 0;
            while j < row.len()
                invariant
                    0 <= i < self.chars@.len(),
                    0 <= j <= row@.len(),
                    row == self.chars@[i as int],
                    x0 == c_offset.0 + self.offset.0,
                    y0 == c_offset.1 + self.offset.1,
                    y == y0 + i,
                    w == width as int,
                    h == height as int,
                    buffer@.len() == old(buffer)@.len(),
                    buffer@.len() >= height,
                    forall|y: int| 0 <= y < buffer@.len() ==> #[trigger] buffer@[y]@.len() == old(buffer)@[y]@.len(),
                    forall|y: int| 0 <= y < height ==> #[trigger] old(buffer)@[y]@.len() >= width,
                    forall|yy: int, x: int| 0 <= yy < buffer@.len() && 0 <= x < buffer@[yy]@.len() ==>
                        #[trigger] buffer@[yy]@[x]@ == match self.stamp_at(c_offset, x, yy, w, h) {
                            Some(v) => if Self::before(yy - y0, x - x0, i as int, j as int) { bg_token(v) } else { old(buffer)@[yy]@[x]@ },
                            None => old(buffer)@[yy]@[x]@,
                        },
                decreases row@.len() - j,
            {
                let x: i128 = x0 + j as i128;
                let ghost prev = buffer@;
                let ghost mut stamped = false;
                if 0 <= x && 0 <= y && y < height as i128 && x < width as i128 {
                    if let Color::AnsiValue(c) = row[j].background_color {
                        let token = color_token(c);
                        buffer[y as usize][x as usize] = token;
                        proof {
                            stamped = true;
                        }
                    }
                }
                proof {
                    assert(self.has_cell(i as int, j as int));
                    assert forall|yy: int, xx: int| 0 <= yy < buffer@.len() && 0 <= xx < buffer@[yy]@.len() implies
                        #[trigger] buffer@[yy]@[xx]@ == match self.stamp_at(c_offset, xx, yy, w, h) {
                            Some(v) => if Self::before(yy - y0, xx - x0, i as int, j + 1) { bg_token(v) } else { old(buffer)@[yy]@[xx]@ },
                            None => old(buffer)@[yy]@[xx]@,
                        } by {
                        if yy == y && xx == x && stamped {
                        } else {
                            assert(buffer@[yy]@[xx] == prev[yy]@[xx]);
                        }
                    }
                }
                j += 1;
            }
            i += 1;
        }
    }

    /// The sum of a list of offsets along each axis.
    pub open spec fn offsets_sum(offsets: Seq<(i32, i32)>) -> (int, int)
        decreases offsets.len(),
    {
        if offsets.len() == 0 {
            (0, 0)
        } else {
            let s = Self::offsets_sum(offsets.drop_last());
            (s.0 + offsets.last().0, s.1 + offsets.last().1)
        }
    }

    /// The absolute position of this item's top-left cell when nested in
    /// containers with the given offsets: its own offset plus all of theirs.
    /// The result may lie off the screen.
    pub fn screen_position(&self, containers_offsets: Vec<(i32, i32)>) -> (r: (i32, i32))
        requires
            forall|n: int| 0 <= n <= containers_offsets@.len() ==> {
                let s = #[trigger] Self::offsets_sum(containers_offsets@.take(n));
                &&& i32::MIN <= self.offset.0 + s.0 <= i32::MAX
                &&& i32::MIN <= self.offset.1 + s.1 <= i32::MAX
            },
        ensures
            r.0 == self.offset.0 + Self::offsets_sum(containers_offsets@).0,
            r.1 == self.offset.1 + Self::offsets_sum(containers_offsets@).1,
    {
        let mut x: i32 = self.offset.0;
        let mut y: i32 = self.offset.1;
        let mut n: usize = 0;
        assert(containers_offsets@.take(0) =~= Seq::<(i32, i32)>::empty());
        while n < containers_offsets.len()
            invariant
                0 <= n <= containers_offsets@.len(),
                forall|m: int| 0 <= m <= containers_offsets@.len() ==> {
                    let s = #[trigger] Self::offsets_sum(containers_offsets@.take(m));
                    &&& i32::MIN <= self.offset.0 + s.0 <= i32::MAX
                    &&& i32::MIN <= self.offset.1 + s.1 <= i32::MAX
                },
                x == self.offset.0 + Self::offsets_sum(containers_offsets@.take(n as int)).0,
                y == self.offset.1 + Self::offsets_sum(containers_offsets@.take(n as int)).1,
            decreases containers_offsets@.len() - n,
        {
            let (c_x, c_y) = containers_offsets[n];
            assert(containers_offsets@.take(n + 1).drop_last() =~= containers_offsets@.take(n as int));
            assert(Self::offsets_sum(containers_offsets@.take(n + 1)).0
                == Self::offsets_sum(containers_offsets@.take(n as int)).0 + c_x);
            x = x + c_x;
            y = y + c_y;
            n += 1;
        }
        assert(containers_offsets@.take(containers_offsets@.len() as int) =~= containers_offsets@);
        (x, y)
    }

    /// The cell rendered at screen position `p` under container offset `c`,
    /// transparent or not, if the item has one there.
    pub fn cell_under(&self, c: (i32, i32), p: (i64, i64)) -> (r: Option<TermChar>)
        ensures
            ({
                let rr = p.1 - c.1 - self.offset.1;
                let k = p.0 - c.0 - self.offset.0;
                if self.has_cell(rr, k) { r == Some(self.chars@[rr]@[k]) } else { r is None }
            }),
    {
        let dy: i128 = p.1 as i128 - c.1 as i128 - self.offset.1 as i128;
        let dx: i128 = p.0 as i128 - c.0 as i128 - self.offset.0 as i128;
        if dy < 0 || dx < 0 || dy >= self.chars.len() as i128 {
            return None;
        }
        let row = &self.chars[dy as usize];
        if dx >= row.len() as i128 {
            return None;
        }
        Some(row[dx as usize])
    }

    /// Whether the screen position `p` is one of this item's non-transparent
    /// cells under container offset `c`.
    pub fn covers(&self, c: (i32, i32), p: (i64, i64)) -> (r: bool)
        ensures
            r == self.fills(c, p.0 as int, p.1 as int),
    {
        let dy: i128 = p.1 as i128 - c.1 as i128 - self.offset.1 as i128;
        let dx: i128 = p.0 as i128 - c.0 as i128 - self.offset.0 as i128;
        if dy < 0 || dx < 0 || dy >= self.chars.len() as i128 {
            return false;
        }
        let row = &self.chars[dy as usize];
        if dx >= row.len() as i128 {
            return false;
        }
        !row[dx as usize].empty
    }
}

} // verus!

verus! {

/// The index of the first item, in insertion order, that fills screen
/// position `(x, y)` under container offset `c`.
pub open spec fn first_hit(items: Seq<Item>, c: (i32, i32), x: int, y: int) -> Option<int>
    decreases items.len(),
{
    if items.len() == 0 {
        None
    } else {
        match first_hit(items.drop_last(), c, x, y) {
            Some(i) => Some(i),
            None => if items.last().fills(c, x, y) { Some(items.len() - 1) } else { None },
        }
    }
}

/// The contents of buffer entry `(x, y)` after each item, in order, has
/// stamped a blank buffer: the token of the last item that stamps there, or
/// a single space.
pub open spec fn composited_cell(items: Seq<Item>, c: (i32, i32), x: int, y: int, w: int, h: int) -> Seq<char>
    decreases items.len(),
{
    if items.len() == 0 {
        seq![' ']
    } else {
        match items.last().stamp_at(c, x, y, w, h) {
            Some(v) => bg_token(v),
            None => composited_cell(items.drop_last(), c, x, y, w, h),
        }
    }
}

/// The paints that redraw each item in turn at its place under container
/// offset `c`.
pub open spec fn items_paints(items: Seq<Item>, c: (i32, i32), w: int, h: int) -> Seq<Paint>
    decreases items.len(),
{
    if items.len() == 0 {
        seq![]
    } else {
        items_paints(items.drop_last(), c, w, h) + grid_paints(items.last().grid(),
            c.0 + items.last().offset.0, c.1 + items.last().offset.1, w, h, false)
    }
}

/// The filled positions of each item in turn under container offset `c`.
pub open spec fn items_filled(items: Seq<Item>, c: (i32, i32)) -> Seq<(i32, i32)>
    decreases items.len(),
{
    if items.len() == 0 {
        seq![]
    } else {
        items_filled(items.drop_last(), c) + items.last().filled_positions(c)
    }
}

/// All strings of a row, joined.
pub open spec fn join_row(row: Seq<Seq<char>>) -> Seq<char>
    decreases row.len(),
{
    if row.len() == 0 {
        seq![]
    } else {
        join_row(row.drop_last()) + row.last()
    }
}

/// All rows joined, top to bottom.
pub open spec fn join_rows(rows: Seq<Seq<Seq<char>>>) -> Seq<char>
    decreases rows.len(),
{
    if rows.len() == 0 {
        seq![]
    } else {
        join_rows(rows.drop_last()) + join_row(rows.last())
    }
}

/// The text of a whole `w` × `h` frame composited from `items`.
pub open spec fn frame_text(items: Seq<Item>, c: (i32, i32), w: int, h: int) -> Seq<char> {
    join_rows(Seq::new(h as nat, |y: int| Seq::new(w as nat, |x: int| composited_cell(items, c, x, y, w, h))))
}

pub open spec fn buffer_view(buffer: Seq<Vec<String>>) -> Seq<Seq<Seq<char>>> {
    buffer.map_values(|row: Vec<String>| row@.map_values(|s: String| s@))
}

/// A pannable, ordered collection of items. Its width and height bound only
/// the compositing buffer; items may lie partly or wholly off the screen.
pub struct Layer {
    pub name: String,
    pub width: u16,
    pub height: u16,
    pub offset: (i32, i32),
    pub items: Vec<Item>,
}

impl Layer {
    /// This layer is `prev` panned by `d`: only the offset moved.
    pub open spec fn is_pan_of(&self, prev: Layer, d: (i32, i32)) -> bool {
        &&& self.offset.0 == prev.offset.0 + d.0
        &&& self.offset.1 == prev.offset.1 + d.1
        &&& self.items@ == prev.items@
        &&& self.name@ == prev.name@
        &&& self.width == prev.width
        &&& self.height == prev.height
    }

    /// The absolute position at which item `i` is rendered.
    pub open spec fn rendered_position(&self, i: int) -> (int, int) {
        (self.offset.0 + self.items@[i].offset.0, self.offset.1 + self.items@[i].offset.1)
    }

    pub fn new_empty(name: String, width: u16, height: u16, offset: (i32, i32)) -> (r: Layer)
        ensures
            r.name == name,
            r.width == width,
            r.height == height,
            r.offset == offset,
            r.items@.len() == 0,
    {
        Layer { name, width, height, offset, items: Vec::new() }
    }

    /// The position relative to this layer of the screen position `(col, row)`.
    pub fn relative_position(&self, col: u16, row: u16) -> (r: (i32, i32))
        requires
            i32::MIN <= col - self.offset.0 <= i32::MAX,
            i32::MIN <= row - self.offset.1 <= i32::MAX,
        ensures
            r.0 == col - self.offset.0,
            r.1 == row - self.offset.1,
    {
        (col as i32 - self.offset.0, row as i32 - self.offset.1)
    }

    pub fn add_item(&mut self, item: Item)
        ensures
            final(self).items@ == old(self).items@.push(item),
            final(self).offset == old(self).offset,
            final(self).name == old(self).name,
            final(self).width == old(self).width,
            final(self).height == old(self).height,
    {
        self.items.push(item);
    }

    /// Removes every item that shares `item`'s name; with `None`, nothing.
    pub fn remove_item(&mut self, item: Option<&Item>)
        ensures
            final(self).items@ == match item {
                Some(it) => old(self).items@.filter(|x: Item| x.name@ != it.name@),
                None => old(self).items@,
            },
            final(self).offset == old(self).offset,
            final(self).name == old(self).name,
            final(self).width == old(self).width,
            final(self).height == old(self).height,
    {
        if let Some(it) = item {
            self.remove_items_named(&it.name);
        }
    }

    /// Removes every item named `name`, keeping the others in order.
    pub fn remove_items_named(&mut self, name: &String)
        ensures
            final(self).items@ == old(self).items@.filter(|x: Item| x.name@ != name@),
            final(self).offset == old(self).offset,
            final(self).name == old(self).name,
            final(self).width == old(self).width,
            final(self).height == old(self).height,
    {
        let ghost pred = |x: Item| x.name@ != name@;
        let ghost orig = self.items@;
        let mut i: usize = self.items.len();
        assert(orig.skip(i as int) =~= Seq::<Item>::empty());
        proof {
            reveal(Seq::filter);
            assert(orig.skip(i as int).filter(pred) =~= Seq::<Item>::empty());
            assert(self.items@ =~= orig.take(i as int) + orig.skip(i as int).filter(pred));
        }
        while i > 0
            invariant
                0 <= i <= orig.len(),
                self.items@ == orig.take(i as int) + orig.skip(i as int).filter(pred),
                pred == (|x: Item| x.name@ != name@),
                self.offset == old(self).offset,
                self.name == old(self).name,
                self.width == old(self).width,
                self.height == old(self).height,
            decreases i,
        {
            i -= 1;
            proof {
                assert(orig.skip(i as int) =~= seq![orig[i as int]] + orig.skip(i + 1));
                orig.skip(i + 1).lemma_filter_prepend(orig[i as int], pred);
                assert(self.items@[i as int] == orig[i as int]);
            }
            if self.items[i].name == *name {
                self.items.remove(i);
                assert(self.items@ =~= orig.take(i as int) + orig.skip(i as int).filter(pred));
            } else {
                assert(self.items@ =~= orig.take(i as int) + orig.skip(i as int).filter(pred));
            }
        }
        assert(orig.skip(0) =~= orig);
        assert(self.items@ =~= orig.filter(pred));
    }

    /// Removes every item whose offset is `offset`, keeping the others in order.
    pub fn remove_items_at_offset(&mut self, offset: (i32, i32))
        ensures
            final(self).items@ == old(self).items@.filter(|x: Item| x.offset != offset),
            final(self).offset == old(self).offset,
            final(self).name == old(self).name,
            final(self).width == old(self).width,
            final(self).height == old(self).height,
    {
        let ghost pred = |x: Item| x.offset != offset;
        let ghost orig = self.items@;
        let mut i: usize = self.items.len();
        assert(orig.skip(i as int) =~= Seq::<Item>::empty());
        proof {
            reveal(Seq::filter);
            assert(orig.skip(i as int).filter(pred) =~= Seq::<Item>::empty());
            assert(self.items@ =~= orig.take(i as int) + orig.skip(i as int).filter(pred));
        }
        while i > 0
            invariant
                0 <= i <= orig.len(),
                self.items@ == orig.take(i as int) + orig.skip(i as int).filter(pred),
                pred == (|x: Item| x.offset != offset),
                self.offset == old(self).offset,
                self.name == old(self).name,
                self.width == old(self).width,
                self.height == old(self).height,
            decreases i,
        {
            i -= 1;
            proof {
                assert(orig.skip(i as int) =~= seq![orig[i as int]] + orig.skip(i + 1));
                orig.skip(i + 1).lemma_filter_prepend(orig[i as int], pred);
                assert(self.items@[i as int] == orig[i as int]);
            }
            if self.items[i].offset.0 == offset.0 && self.items[i].offset.1 == offset.1 {
                self.items.remove(i);
                assert(self.items@ =~= orig.take(i as int) + orig.skip(i as int).filter(pred));
            } else {
                assert(self.items@ =~= orig.take(i as int) + orig.skip(i as int).filter(pred));
            }
        }
        assert(orig.skip(0) =~= orig);
        assert(self.items@ =~= orig.filter(pred));
    }

    /// Removes the item at `index`, leaving the others in order.
    pub fn remove_item_at(&mut self, index: usize)
        requires
            index < old(self).items@.len(),
        ensures
            final(self).items@ == old(self).items@.remove(index as int),
            final(self).offset == old(self).offset,
            final(self).name == old(self).name,
            final(self).width == old(self).width,
            final(self).height == old(self).height,
    {
        self.items.remove(index);
    }

    /// Pans the layer: only its offset changes, the items keep theirs.
    pub fn move_layer(&mut self, displacement: (i32, i32))
        requires
            i32::MIN <= old(self).offset.0 + displacement.0 <= i32::MAX,
            i32::MIN <= old(self).offset.1 + displacement.1 <= i32::MAX,
        ensures
            final(self).is_pan_of(*old(self), displacement),
            final(self).items == old(self).items,
            final(self).name == old(self).name,
    {
        self.offset = (self.offset.0 + displacement.0, self.offset.1 + displacement.1);
    }

    /// The positions filled by any item of this layer: `p` is listed exactly
    /// when some item's non-transparent cell is rendered there.
    pub fn get_filled_indexes(&self) -> (r: Vec<(i32, i32)>)
        requires
            forall|i: int| 0 <= i < self.items@.len() ==> (#[trigger] self.items@[i]).positions_fit(self.offset),
        ensures
            forall|p: (i32, i32)| r@.contains(p) <==> exists|i: int| 0 <= i < self.items@.len()
                && (#[trigger] self.items@[i]).fills(self.offset, p.0 as int, p.1 as int),
            r@ == items_filled(self.items@, self.offset),
    {
        let mut out: Vec<(i32, i32)> = Vec::new();
        let mut i: usize = 0;
        while i < self.items.len()
            invariant
                0 <= i <= self.items@.len(),
                forall|i: int| 0 <= i < self.items@.len() ==> (#[trigger] self.items@[i]).positions_fit(self.offset),
                forall|p: (i32, i32)| out@.contains(p) <==> exists|j: int| 0 <= j < i
                    && (#[trigger] self.items@[j]).fills(self.offset, p.0 as int, p.1 as int),
                out@ == items_filled(self.items@.take(i as int), self.offset),
            decreases self.items@.len() - i,
        {
            assert(self.items@.take(i + 1).drop_last() =~= self.items@.take(i as int));
            let mut more = self.items[i].get_filled_indexes(self.offset);
            let ghost prev = out@;
            let ghost added = more@;
            out.append(&mut more);
            assert forall|p: (i32, i32)| out@.contains(p) <==> exists|j: int| 0 <= j < i + 1
                && (#[trigger] self.items@[j]).fills(self.offset, p.0 as int, p.1 as int) by {
                if out@.contains(p) {
                    let n = choose|n: int| 0 <= n < out@.len() && out@[n] == p;
                    if n < prev.len() {
                        assert(prev[n] == p);
                        assert(prev.contains(p));
                    } else {
                        assert(added[n - prev.len()] == p);
                        assert(added.contains(p));
                        assert(self.items@[i as int].fills(self.offset, p.0 as int, p.1 as int));
                    }
                }
                if exists|j: int| 0 <= j < i + 1 && (#[trigger] self.items@[j]).fills(self.offset, p.0 as int, p.1 as int) {
                    let j = choose|j: int| 0 <= j < i + 1 && (#[trigger] self.items@[j]).fills(self.offset, p.0 as int, p.1 as int);
                    if j < i {
                        assert(prev.contains(p));
                        let n = choose|n: int| 0 <= n < prev.len() && prev[n] == p;
                        assert(out@[n] == p);
                    } else {
                        assert(added.contains(p));
                        let n = choose|n: int| 0 <= n < added.len() && added[n] == p;
                        assert(out@[prev.len() + n] == p);
                    }
                }
            }
            assert(out@ =~= items_filled(self.items@.take(i + 1), self.offset));
            i += 1;
        }
        assert(self.items@.take(i as int) =~= self.items@);
        out
    }

    /// The paints that redraw every item in insertion order at its rendered
    /// position.
    pub fn redraw(&self, width: u16, height: u16) -> (r: Vec<Paint>)
        ensures
            r@ == items_paints(self.items@, self.offset, width as int, height as int),
    {
        let mut out: Vec<Paint> = Vec::new();
        let mut i: usize = 0;
        while i < self.items.len()
            invariant
                0 <= i <= self.items@.len(),
                out@ == items_paints(self.items@.take(i as int), self.offset, width as int, height as int),
            decreases self.items@.len() - i,
        {
            let mut more = self.items[i].redraw(self.offset, width, height);
            out.append(&mut more);
            assert(self.items@.take(i + 1).drop_last() =~= self.items@.take(i as int));
            i += 1;
        }
        assert(self.items@.take(i as int) =~= self.items@);
        out
    }

    /// The buffer's strings joined row by row.
    pub fn buffer_to_string(&mut self, buffer: Vec<Vec<String>>) -> (r: String)
        ensures
            r@ == join_rows(buffer_view(buffer@)),
            *final(self) == *old(self),
    {
        let ghost rows = buffer_view(buffer@);
        let mut out = String::new();
        let mut y: usize = 0;
        while y < buffer.len()
            invariant
                0 <= y <= buffer@.len(),
                rows == buffer_view(buffer@),
                out@ == join_rows(rows.take(y as int)),
            decreases buffer@.len() - y,
        {
            let row = &buffer[y];
            let ghost before = out@;
            let mut x: usize = 0;
            while x < row.len()
                invariant
                    0 <= y < buffer@.len(),
                    0 <= x <= row@.len(),
                    row == buffer@[y as int],
                    rows == buffer_view(buffer@),
                    rows[y as int] == row@.map_values(|s: String| s@),
                    out@ == before + join_row(rows[y as int].take(x as int)),
                decreases row@.len() - x,
            {
                out.append(row[x].as_str());
                assert(rows[y as int].take(x + 1).drop_last() =~= rows[y as int].take(x as int));
                assert(out@ =~= before + join_row(rows[y as int].take(x + 1)));
                x += 1;
            }
            assert(rows[y as int].take(x as int) =~= rows[y as int]);
            assert(rows.take(y + 1).drop_last() =~= rows.take(y as int));
            y += 1;
        }
        assert(rows.take(y as int) =~= rows);
        out
    }

    /// Composites the whole layer into one frame: a blank `width` × `height`
    /// buffer that every item stamps in insertion order, joined into one
    /// string to be written from the top-left corner in a single flush.
    pub fn draw_buffer(&mut self, width: u16, height: u16) -> (r: String)
        ensures
            r@ == frame_text(old(self).items@, old(self).offset, width as int, height as int),
            *final(self) == *old(self),
    {
        let ghost w = width as int;
        let ghost h = height as int;
        let mut buffer: Vec<Vec<String>> = Vec::new();
        let mut y: usize = 0;
        while y < height as usize
            invariant
                y <= height,
                w == width as int,
                buffer@.len() == y,
                forall|yy: int| 0 <= yy < y ==> (#[trigger] buffer@[yy])@.len() == width,
                forall|yy: int, xx: int| 0 <= yy < y && 0 <= xx < width ==>
                    (#[trigger] buffer@[yy]@[xx])@ == seq![' '],
            decreases height - y,
        {
            let mut row: Vec<String> = Vec::new();
            let mut x: usize = 0;
            while x < width as usize
                invariant
                    x <= width,
                    row@.len() == x,
                    forall|xx: int| 0 <= xx < x ==> (#[trigger] row@[xx])@ == seq![' '],
                decreases width - x,
            {
                let blank = String::from_str(" ");
                proof {
                    reveal_strlit(" ");
                }
                row.push(blank);
                assert(row@[x as int]@ =~= seq![' ']);
                x += 1;
            }
            buffer.push(row);
            y += 1;
        }
        let mut n: usize = 0;
        while n < self.items.len()
            invariant
                0 <= n <= self.items@.len(),
                *self == *old(self),
                w == width as int,
                h == height as int,
                buffer@.len() == height,
                forall|yy: int| 0 <= yy < height ==> (#[trigger] buffer@[yy])@.len() == width,
                forall|yy: int, xx: int| 0 <= yy < height && 0 <= xx < width ==>
                    (#[trigger] buffer@[yy]@[xx])@ == composited_cell(self.items@.take(n as int), self.offset, xx, yy, w, h),
            decreases self.items@.len() - n,
        {
            self.items[n].draw_buffer(&mut buffer, self.offset, width, height);
            assert(self.items@.take(n + 1).drop_last() =~= self.items@.take(n as int));
            assert(self.items@.take(n + 1).last() == self.items@[n as int]);
            n += 1;
        }
        assert(self.items@.take(n as int) =~= self.items@);
        let ghost grid = Seq::new(h as nat, |yy: int| Seq::new(w as nat, |xx: int|
            composited_cell(self.items@, self.offset, xx, yy, w, h)));
        assert(buffer_view(buffer@) =~= grid) by {
            assert forall|yy: int| 0 <= yy < h implies buffer_view(buffer@)[yy] =~= #[trigger] grid[yy] by {
                assert forall|xx: int| 0 <= xx < w implies buffer_view(buffer@)[yy][xx] == #[trigger] grid[yy][xx] by {
                    assert(buffer@[yy]@[xx]@ == composited_cell(self.items@, self.offset, xx, yy, w, h));
                }
            }
        }
        self.buffer_to_string(buffer)
    }

    /// The index of the first item, in insertion order, whose filled
    /// positions contain the screen position `p`.
    pub fn item_index_at(&self, p: (i64, i64)) -> (r: Option<usize>)
        ensures
            match r {
                Some(i) => first_hit(self.items@, self.offset, p.0 as int, p.1 as int) == Some(i as int),
                None => first_hit(self.items@, self.offset, p.0 as int, p.1 as int) is None,
            },
    {
        let mut i: usize = 0;
        while i < self.items.len()
            invariant
                0 <= i <= self.items@.len(),
                first_hit(self.items@.take(i as int), self.offset, p.0 as int, p.1 as int) is None,
            decreases self.items@.len() - i,
        {
            assert(self.items@.take(i + 1).drop_last() =~= self.items@.take(i as int));
            if self.items[i].covers(self.offset, p) {
                proof {
                    lemma_first_hit_prefix(self.items@, self.offset, p.0 as int, p.1 as int, i + 1);
                }
                return Some(i);
            }
            i += 1;
        }
        assert(self.items@.take(i as int) =~= self.items@);
        None
    }

    /// The first item, in insertion order, whose filled positions contain
    /// the screen position `(abs_x, abs_y)`.
    pub fn get_item_at_absolute(&self, abs: (i32, i32)) -> (r: Option<&Item>)
        ensures
            match first_hit(self.items@, self.offset, abs.0 as int, abs.1 as int) {
                Some(i) => r == Some(&self.items@[i]),
                None => r is None,
            },
    {
        match self.item_index_at((abs.0 as i64, abs.1 as i64)) {
            Some(i) => {
                proof {
                    lemma_first_hit(self.items@, self.offset, abs.0 as int, abs.1 as int);
                }
                Some(&self.items[i])
            },
            None => None,
        }
    }
}

/// What a first hit means: the earliest item that fills the position; with
/// none, no item fills it.
pub proof fn lemma_first_hit(items: Seq<Item>, c: (i32, i32), x: int, y: int)
    ensures
        match first_hit(items, c, x, y) {
            Some(i) => 0 <= i < items.len() && items[i].fills(c, x, y)
                && forall|j: int| 0 <= j < i ==> !(#[trigger] items[j]).fills(c, x, y),
            None => forall|j: int| 0 <= j < items.len() ==> !(#[trigger] items[j]).fills(c, x, y),
        },
    decreases items.len(),
{
    if items.len() > 0 {
        let rest = items.drop_last();
        lemma_first_hit(rest, c, x, y);
        match first_hit(rest, c, x, y) {
            Some(i) => {
                assert(rest[i] == items[i]);
                assert forall|j: int| 0 <= j < i implies !(#[trigger] items[j]).fills(c, x, y) by {
                    assert(rest[j] == items[j]);
                }
            },
            None => {
                assert forall|j: int| 0 <= j < items.len() - 1 implies !(#[trigger] items[j]).fills(c, x, y) by {
                    assert(rest[j] == items[j]);
                }
            },
        }
    }
}

/// A first hit found in a prefix of `items` is the first hit of `items`.
pub proof fn lemma_first_hit_prefix(items: Seq<Item>, c: (i32, i32), x: int, y: int, n: int)
    requires
        0 <= n <= items.len(),
        first_hit(items.take(n), c, x, y) is Some,
    ensures
        first_hit(items, c, x, y) == first_hit(items.take(n), c, x, y),
    decreases items.len() - n,
{
    if n < items.len() {
        assert(items.take(n + 1).drop_last() =~= items.take(n));
        lemma_first_hit_prefix(items, c, x, y, n + 1);
    } else {
        assert(items.take(n) =~= items);
    }
}

} // verus!

verus! {

/// Panning a layer by `d` and then by the opposite displacement `e` restores
/// its offset, and with it the rendered absolute position of every item.
pub proof fn lemma_pan_round_trip(before: Layer, mid: Layer, after: Layer, d: (i32, i32), e: (i32, i32))
    requires
        mid.is_pan_of(before, d),
        after.is_pan_of(mid, e),
        e.0 == -d.0,
        e.1 == -d.1,
    ensures
        after.offset == before.offset,
        after.items@ == before.items@,
        forall|i: int| 0 <= i < before.items@.len() ==> #[trigger] after.rendered_position(i)
            == before.rendered_position(i),
{
}

/// The index of the first layer, in stack order, holding an item that fills
/// screen position `(x, y)`.
pub open spec fn first_layer_hit(layers: Seq<Layer>, x: int, y: int) -> Option<int>
    decreases layers.len(),
{
    if layers.len() == 0 {
        None
    } else {
        match first_layer_hit(layers.drop_last(), x, y) {
            Some(l) => Some(l),
            None => if first_hit(layers.last().items@, layers.last().offset, x, y) is Some {
                Some(layers.len() - 1)
            } else {
                None
            },
        }
    }
}

/// The paints that redraw every layer in stack order.
pub open spec fn layers_paints(layers: Seq<Layer>, w: int, h: int) -> Seq<Paint>
    decreases layers.len(),
{
    if layers.len() == 0 {
        seq![]
    } else {
        layers_paints(layers.drop_last(), w, h) + items_paints(layers.last().items@, layers.last().offset, w, h)
    }
}

/// What a first layer hit means: the earliest layer that has an item at the
/// position.
pub proof fn lemma_first_layer_hit(layers: Seq<Layer>, x: int, y: int)
    ensures
        match first_layer_hit(layers, x, y) {
            Some(l) => 0 <= l < layers.len() && first_hit(layers[l].items@, layers[l].offset, x, y) is Some
                && forall|j: int| 0 <= j < l ==> first_hit((#[trigger] layers[j]).items@, layers[j].offset, x, y) is None,
            None => forall|j: int| 0 <= j < layers.len() ==> first_hit((#[trigger] layers[j]).items@, layers[j].offset, x, y) is None,
        },
    decreases layers.len(),
{
    if layers.len() > 0 {
        let rest = layers.drop_last();
        lemma_first_layer_hit(rest, x, y);
        match first_layer_hit(rest, x, y) {
            Some(l) => {
                assert(rest[l] == layers[l]);
                assert forall|j: int| 0 <= j < l implies first_hit((#[trigger] layers[j]).items@, layers[j].offset, x, y) is None by {
                    assert(rest[j] == layers[j]);
                }
            },
            None => {
                assert forall|j: int| 0 <= j < layers.len() - 1 implies first_hit((#[trigger] layers[j]).items@, layers[j].offset, x, y) is None by {
                    assert(rest[j] == layers[j]);
                }
            },
        }
    }
}

/// An ordered stack of layers on a `width` × `height` terminal: layer 0 is
/// the drawing surface, later layers are composited on top of it.
pub struct Screen {
    pub width: u16,
    pub height: u16,
    pub layers: Vec<Layer>,
}

impl Screen {
    pub fn new(layers: Vec<Layer>, width: u16, height: u16) -> (r: Screen)
        ensures
            r.layers == layers,
            r.width == width,
            r.height == height,
    {
        Screen { width, height, layers }
    }

    pub fn add_layer(&mut self, layer: Layer)
        ensures
            final(self).layers@ == old(self).layers@.push(layer),
            final(self).width == old(self).width,
            final(self).height == old(self).height,
    {
        self.layers.push(layer);
    }

    /// The paints that redraw every layer, background first.
    pub fn redraw(&self) -> (r: Vec<Paint>)
        ensures
            r@ == layers_paints(self.layers@, self.width as int, self.height as int),
    {
        let mut out: Vec<Paint> = Vec::new();
        let mut l: usize = 0;
        while l < self.layers.len()
            invariant
                0 <= l <= self.layers@.len(),
                out@ == layers_paints(self.layers@.take(l as int), self.width as int, self.height as int),
            decreases self.layers@.len() - l,
        {
            let mut more = self.layers[l].redraw(self.width, self.height);
            out.append(&mut more);
            assert(self.layers@.take(l + 1).drop_last() =~= self.layers@.take(l as int));
            l += 1;
        }
        assert(self.layers@.take(l as int) =~= self.layers@);
        out
    }

    /// The first layer, in stack order starting from the background, with a
    /// filled cell at `index`.
    pub fn first_filled_layer_at_index(&self, index: &(u16, u16)) -> (r: Option<usize>)
        ensures
            match r {
                Some(l) => first_layer_hit(self.layers@, index.0 as int, index.1 as int) == Some(l as int),
                None => first_layer_hit(self.layers@, index.0 as int, index.1 as int) is None,
            },
    {
        let p: (i64, i64) = (index.0 as i64, index.1 as i64);
        let mut l: usize = 0;
        while l < self.layers.len()
            invariant
                0 <= l <= self.layers@.len(),
                p == (index.0 as i64, index.1 as i64),
                first_layer_hit(self.layers@.take(l as int), index.0 as int, index.1 as int) is None,
            decreases self.layers@.len() - l,
        {
            assert(self.layers@.take(l + 1).drop_last() =~= self.layers@.take(l as int));
            if self.layers[l].item_index_at(p).is_some() {
                proof {
                    lemma_first_layer_hit_prefix(self.layers@, index.0 as int, index.1 as int, l + 1);
                }
                return Some(l);
            }
            l += 1;
        }
        assert(self.layers@.take(l as int) =~= self.layers@);
        None
    }

    /// The first item at `(col, row)`, scanning layers from the background
    /// up, so overlay items do not pre-empt background content.
    pub fn first_item_at_col_row(&self, col_row: (u16, u16)) -> (r: Option<&Item>)
        ensures
            match first_layer_hit(self.layers@, col_row.0 as int, col_row.1 as int) {
                Some(l) => {
                    let layer = self.layers@[l];
                    r == Some(&layer.items@[first_hit(layer.items@, layer.offset, col_row.0 as int, col_row.1 as int)->0])
                },
                None => r is None,
            },
    {
        match self.first_filled_layer_at_index(&col_row) {
            Some(l) => {
                proof {
                    lemma_first_layer_hit(self.layers@, col_row.0 as int, col_row.1 as int);
                }
                self.layers[l].get_item_at_absolute((col_row.0 as i32, col_row.1 as i32))
            },
            None => None,
        }
    }

    /// Whether no layer has a filled cell at `index`.
    pub fn index_is_empty(&self, index: &(u16, u16)) -> (r: bool)
        ensures
            r == (first_layer_hit(self.layers@, index.0 as int, index.1 as int) is None),
    {
        self.first_filled_layer_at_index(index).is_none()
    }
}

/// A first layer hit found among the first `n` layers is the first hit of
/// the whole stack.
pub proof fn lemma_first_layer_hit_prefix(layers: Seq<Layer>, x: int, y: int, n: int)
    requires
        0 <= n <= layers.len(),
        first_layer_hit(layers.take(n), x, y) is Some,
    ensures
        first_layer_hit(layers, x, y) == first_layer_hit(layers.take(n), x, y),
    decreases layers.len() - n,
{
    if n < layers.len() {
        assert(layers.take(n + 1).drop_last() =~= layers.take(n));
        lemma_first_layer_hit_prefix(layers, x, y, n + 1);
    } else {
        assert(layers.take(n) =~= layers);
    }
}

} // verus!
