use vstd::prelude::*;
use vstd::string::StrSliceExecFns;

verus! {

/// Number of rows of the character grid.
pub const HEIGHT: usize = 30;

/// A pixel write leaves a dot only where its coverage, in thousandths,
/// exceeds this.
pub const DOT_THRESHOLD: u32 = 300;

/// What one cell of the grid shows.
#[derive(Clone, Copy, Debug, PartialEq, Eq, Structural)]
pub enum PixelState {
    Empty,
    HLine,
    VLine,
    Cross,
    Pixel,
    Text(char),
    Circle(bool),
}

/// The character that a cell shows.
pub open spec fn glyph(s: PixelState) -> char {
    match s {
        PixelState::Empty => ' ',
        PixelState::HLine => '-',
        PixelState::VLine => '|',
        PixelState::Cross => '+',
        PixelState::Pixel => '.',
        PixelState::Text(c) => c,
        PixelState::Circle(filled) => if filled {
            '@'
        } else {
            'O'
        },
    }
}

/// The state of a cell that held `cur` after `new` is written on it: a
/// horizontal and a vertical line make a cross, a circle outlasts anything,
/// then a dot outlasts anything else, and otherwise the new state wins.
pub open spec fn merge(cur: PixelState, new: PixelState) -> PixelState {
    match (cur, new) {
        (PixelState::HLine, PixelState::VLine) => PixelState::Cross,
        (PixelState::VLine, PixelState::HLine) => PixelState::Cross,
        (_, PixelState::Circle(what)) => PixelState::Circle(what),
        (PixelState::Circle(what), _) => PixelState::Circle(what),
        (_, PixelState::Pixel) => PixelState::Pixel,
        (PixelState::Pixel, _) => PixelState::Pixel,
        (_, n) => n,
    }
}

impl PixelState {
    pub fn to_char(self) -> (r: char)
        ensures
            r == glyph(self),
    {
        match self {
            PixelState::Empty => ' ',
            PixelState::HLine => '-',
            PixelState::VLine => '|',
            PixelState::Cross => '+',
            PixelState::Pixel => '.',
            PixelState::Text(c) => c,
            PixelState::Circle(filled) => {
                if filled {
                    '@'
                } else {
                    'O'
                }
            },
        }
    }

    pub fn update(&mut self, new_state: PixelState)
        ensures
            *final(self) == merge(*old(self), new_state),
    {
        let next_state = match (*self, new_state) {
            (PixelState::HLine, PixelState::VLine) => PixelState::Cross,
            (PixelState::VLine, PixelState::HLine) => PixelState::Cross,
            (_, PixelState::Circle(what)) => PixelState::Circle(what),
            (PixelState::Circle(what), _) => PixelState::Circle(what),
            (_, PixelState::Pixel) => PixelState::Pixel,
            (PixelState::Pixel, _) => PixelState::Pixel,
            (_, n) => n,
        };
        *self = next_state;
    }
}

/// Where a text's anchor sits along the line.
#[derive(Clone, Copy, Debug, PartialEq, Eq, Structural)]
pub enum HPos {
    Left,
    Center,
    Right,
}

/// Where a text's anchor sits across the line.
#[derive(Clone, Copy, Debug, PartialEq, Eq, Structural)]
pub enum VPos {
    Top,
    Center,
    Bottom,
}

/// The cells of `cells` (rows of `w`) after a horizontal line on row `y`
/// over the columns `x0 <= x < x1`.
pub open spec fn hline(cells: Seq<PixelState>, w: int, y: int, x0: int, x1: int) -> Seq<
    PixelState,
> {
    Seq::new(
        cells.len(),
        |i: int|
            if i / w == y && x0 <= i % w < x1 {
                merge(cells[i], PixelState::HLine)
            } else {
                cells[i]
            },
    )
}

/// The cells of `cells` (rows of `w`) after a vertical line in column `x`
/// over the rows `y0 <= y < y1`.
pub open spec fn vline(cells: Seq<PixelState>, w: int, x: int, y0: int, y1: int) -> Seq<
    PixelState,
> {
    Seq::new(
        cells.len(),
        |i: int|
            if i % w == x && y0 <= i / w < y1 {
                merge(cells[i], PixelState::VLine)
            } else {
                cells[i]
            },
    )
}

pub open spec fn min_i(a: int, b: int) -> int {
    if a <= b {
        a
    } else {
        b
    }
}

pub open spec fn max_i(a: int, b: int) -> int {
    if a <= b {
        b
    } else {
        a
    }
}

/// A line from `from` to `to` that the grid draws itself is vertical or
/// horizontal; it covers the cells from the lower end up to, not including,
/// the upper end.
pub open spec fn is_axis_aligned(from: (i32, i32), to: (i32, i32)) -> bool {
    from.0 == to.0 || from.1 == to.1
}

/// The cells after a vertical or horizontal line from `from` to `to`; any
/// other line leaves them as they are.
pub open spec fn line_cells(
    cells: Seq<PixelState>,
    w: int,
    from: (i32, i32),
    to: (i32, i32),
) -> Seq<PixelState> {
    if from.0 == to.0 {
        vline(cells, w, from.0 as int, min_i(from.1 as int, to.1 as int), max_i(from.1 as int, to.1 as int))
    } else if from.1 == to.1 {
        hline(cells, w, from.1 as int, min_i(from.0 as int, to.0 as int), max_i(from.0 as int, to.0 as int))
    } else {
        cells
    }
}

/// The cells that a line from `from` to `to` covers lie in a grid `w` wide.
pub open spec fn line_in_bounds(w: int, from: (i32, i32), to: (i32, i32)) -> bool {
    if from.0 == to.0 {
        let lo = min_i(from.1 as int, to.1 as int);
        let hi = max_i(from.1 as int, to.1 as int);
        lo < hi ==> (0 <= from.0 < w && 0 <= lo && hi <= HEIGHT)
    } else if from.1 == to.1 {
        let lo = min_i(from.0 as int, to.0 as int);
        let hi = max_i(from.0 as int, to.0 as int);
        lo < hi ==> (0 <= from.1 < HEIGHT && 0 <= lo && hi <= w)
    } else {
        true
    }
}

/// The cell where a text of `n` characters anchored at `pos` starts, each
/// character one cell wide and one high; a negative row or column becomes 0.
pub open spec fn text_origin(w: int, n: int, h: HPos, v: VPos, pos: (i32, i32)) -> int {
    let dx = match h {
        HPos::Left => 0,
        HPos::Right => -n,
        HPos::Center => -(n / 2),
    };
    let dy = match v {
        VPos::Top => 0,
        VPos::Center => 0,
        VPos::Bottom => -1,
    };
    max_i(pos.1 + dy, 0) * w + max_i(pos.0 + dx, 0)
}

/// Cell `i` after the characters of `text` are written from cell `o` on.
pub open spec fn text_cell(cells: Seq<PixelState>, o: int, text: Seq<char>, i: int) -> PixelState {
    if o <= i && i < o + text.len() {
        merge(cells[i], PixelState::Text(text[i - o]))
    } else {
        cells[i]
    }
}

/// The cells after the characters of `text` are written from cell `o` on,
/// one per cell, running on into the next row.
pub open spec fn text_cells(cells: Seq<PixelState>, o: int, text: Seq<char>) -> Seq<PixelState> {
    Seq::new(cells.len(), |i: int| text_cell(cells, o, text, i))
}

/// Row `r` of a grid `w` wide, as the characters it shows.
pub open spec fn row_text(cells: Seq<PixelState>, w: nat, r: nat) -> Seq<char> {
    Seq::new(w, |c: int| glyph(cells[(r * w) as int + c]))
}

/// The first `n` rows of a grid `w` wide, each followed by a line break.
pub open spec fn frame_text(cells: Seq<PixelState>, w: nat, n: nat) -> Seq<char>
    decreases n,
{
    if n == 0 {
        Seq::empty()
    } else {
        frame_text(cells, w, (n - 1) as nat) + row_text(cells, w, (n - 1) as nat).push('\n')
    }
}

/// `h` lines of `w` spaces, each followed by a line break.
pub open spec fn blank_frame(w: nat, h: nat) -> Seq<char> {
    Seq::new(h * (w + 1), |i: int| if i % (w + 1) as int == w { '\n' } else { ' ' })
}

proof fn lemma_cell_index(w: int, r: int, c: int)
    requires
        0 <= c < w,
        0 <= r,
    ensures
        (r * w + c) / w == r,
        (r * w + c) % w == c,
        0 <= r * w + c,
{
    vstd::arithmetic::div_mod::lemma_fundamental_div_mod_converse(r * w + c, w, r, c);
    assert(0 <= r * w) by (nonlinear_arith)
        requires
            0 <= r,
            0 <= w,
    ;
}

proof fn lemma_cell_bound(w: int, h: int, r: int, c: int)
    requires
        0 <= c < w,
        0 <= r < h,
    ensures
        r * w + c < h * w,
{
    assert(r * w + c < h * w) by (nonlinear_arith)
        requires
            0 <= c < w,
            0 <= r < h,
    ;
}

/// A grid of `width` by `HEIGHT` character cells, held row by row, that
/// drawing operations write on and that is shown as text.
pub struct TextDrawingBackend {
    state: Vec<PixelState>,
    width: usize,
}

impl TextDrawingBackend {
    /// The cells, row after row.
    pub closed spec fn cells(&self) -> Seq<PixelState> {
        self.state@
    }

    pub closed spec fn spec_width(&self) -> nat {
        self.width as nat
    }

    pub open spec fn wf(&self) -> bool {
        &&& self.cells().len() == self.spec_width() * HEIGHT
        &&& self.spec_width() * HEIGHT <= i32::MAX
    }

    /// An empty grid `width` cells wide.
    pub fn new(width: usize) -> (r: TextDrawingBackend)
        requires
            width * HEIGHT <= i32::MAX,
        ensures
            r.wf(),
            r.spec_width() == width,
            r.cells() == Seq::new((width * HEIGHT) as nat, |_i: int| PixelState::Empty),
    {
        let n: usize = width * HEIGHT;
        let mut state: Vec<PixelState> = Vec::new();
        let mut i: usize = 0;
        while i < n
            invariant
                i <= n,
                state@ == Seq::new(i as nat, |_i: int| PixelState::Empty),
            decreases n - i,
        {
            state.push(PixelState::Empty);
            i = i + 1;
            assert(state@ =~= Seq::new(i as nat, |_i: int| PixelState::Empty));
        }
        TextDrawingBackend { state, width }
    }

    /// The width and height of the grid, in cells.
    pub fn get_size(&self) -> (r: (u32, u32))
        requires
            self.wf(),
        ensures
            r.0 == self.spec_width(),
            r.1 == HEIGHT,
    {
        (self.width as u32, HEIGHT as u32)
    }

    fn update_cell(&mut self, i: usize, s: PixelState)
        requires
            i < old(self).cells().len(),
        ensures
            final(self).cells() == old(self).cells().update(i as int, merge(old(self).cells()[i as int], s)),
            final(self).spec_width() == old(self).spec_width(),
    {
        let mut c = self.state[i];
        c.update(s);
        self.state.set(i, c);
    }

    /// Writes a dot at column `x` of row `y` where `coverage` (in
    /// thousandths) exceeds the threshold; a fainter write changes nothing.
    pub fn draw_pixel(&mut self, x: i32, y: i32, coverage: u32)
        requires
            old(self).wf(),
            0 <= x < old(self).spec_width(),
            0 <= y < HEIGHT,
        ensures
            final(self).wf(),
            final(self).spec_width() == old(self).spec_width(),
            final(self).cells() == if coverage > DOT_THRESHOLD {
                old(self).cells().update(
                    y * old(self).spec_width() + x,
                    merge(old(self).cells()[y * old(self).spec_width() + x], PixelState::Pixel),
                )
            } else {
                old(self).cells()
            },
    {
        proof {
            lemma_cell_index(self.width as int, y as int, x as int);
            lemma_cell_bound(self.width as int, HEIGHT as int, y as int, x as int);
        }
        if coverage > DOT_THRESHOLD {
            let i: usize = y as usize * self.width + x as usize;
            self.update_cell(i, PixelState::Pixel);
        }
    }

    /// Draws a line from `from` to `to` where it is vertical or horizontal,
    /// and tells whether it did; any other line is left to a general line
    /// rasterizer that writes it pixel by pixel.
    pub fn draw_line(&mut self, from: (i32, i32), to: (i32, i32)) -> (r: bool)
        requires
            old(self).wf(),
            line_in_bounds(old(self).spec_width() as int, from, to),
        ensures
            r == is_axis_aligned(from, to),
            final(self).wf(),
            final(self).spec_width() == old(self).spec_width(),
            final(self).cells() == line_cells(
                old(self).cells(),
                old(self).spec_width() as int,
                from,
                to,
            ),
    {
        let ghost start = self.state@;
        let ghost wi = self.width as int;
        if from.0 == to.0 {
            let x = from.0;
            let y0 = if from.1 <= to.1 { from.1 } else { to.1 };
            let y1 = if from.1 <= to.1 { to.1 } else { from.1 };
            let mut y = y0;
            assert(start =~= vline(start, wi, x as int, y0 as int, y0 as int));
            while y < y1
                invariant
                    y0 <= y <= y1,
                    y0 < y1 ==> (0 <= x < wi && 0 <= y0 && y1 <= HEIGHT),
                    wi == self.width,
                    self.width == old(self).width,
                    start == old(self).state@,
                    self.state@.len() == start.len(),
                    start.len() == wi * HEIGHT,
                    wi * HEIGHT <= i32::MAX,
                    self.state@ == vline(start, wi, x as int, y0 as int, y as int),
                decreases y1 - y,
            {
                proof {
                    lemma_cell_index(wi, y as int, x as int);
                    lemma_cell_bound(wi, HEIGHT as int, y as int, x as int);
                }
                let i: usize = y as usize * self.width + x as usize;
                self.update_cell(i, PixelState::VLine);
                proof {
                    assert forall|j: int| 0 <= j < start.len() implies
                        #[trigger] self.state@[j] == vline(start, wi, x as int, y0 as int, y + 1)[j] by {
                        vstd::arithmetic::div_mod::lemma_fundamental_div_mod(j, wi);
                        if j % wi == x && j / wi == y {
                            assert(j == y * wi + x) by (nonlinear_arith)
                                requires
                                    j == wi * (j / wi) + j % wi,
                                    j / wi == y,
                                    j % wi == x,
                            ;
                        }
                    }
                    assert(self.state@ =~= vline(start, wi, x as int, y0 as int, y + 1));
                }
                y = y + 1;
            }
            return true;
        }
        if from.1 == to.1 {
            let y = from.1;
            let x0 = if from.0 <= to.0 { from.0 } else { to.0 };
            let x1 = if from.0 <= to.0 { to.0 } else { from.0 };
            let mut x = x0;
            assert(start =~= hline(start, wi, y as int, x0 as int, x0 as int));
            while x < x1
                invariant
                    x0 <= x <= x1,
                    x0 < x1 ==> (0 <= y < HEIGHT && 0 <= x0 && x1 <= wi),
                    wi == self.width,
                    self.width == old(self).width,
                    start == old(self).state@,
                    self.state@.len() == start.len(),
                    start.len() == wi * HEIGHT,
                    wi * HEIGHT <= i32::MAX,
                    self.state@ == hline(start, wi, y as int, x0 as int, x as int),
                decreases x1 - x,
            {
                proof {
                    lemma_cell_index(wi, y as int, x as int);
                    lemma_cell_bound(wi, HEIGHT as int, y as int, x as int);
                }
                let i: usize = y as usize * self.width + x as usize;
                self.update_cell(i, PixelState::HLine);
                proof {
                    assert forall|j: int| 0 <= j < start.len() implies
                        #[trigger] self.state@[j] == hline(start, wi, y as int, x0 as int, x + 1)[j] by {
                        vstd::arithmetic::div_mod::lemma_fundamental_div_mod(j, wi);
                        if j / wi == y && j % wi == x {
                            assert(j == y * wi + x) by (nonlinear_arith)
                                requires
                                    j == wi * (j / wi) + j % wi,
                                    j / wi == y,
                                    j % wi == x,
                            ;
                        }
                    }
                    assert(self.state@ =~= hline(start, wi, y as int, x0 as int, x + 1));
                }
                x = x + 1;
            }
            return true;
        }
        false
    }

    /// The size of `text` in cells: one cell per character, one row high.
    pub fn estimate_text_size(text: &str) -> (r: (usize, usize))
        ensures
            r.0 == text@.len(),
            r.1 == 1,
    {
        (text.unicode_len(), 1)
    }

    fn text_start(&self, n: usize, h: HPos, v: VPos, pos: (i32, i32)) -> (o: i64)
        requires
            self.wf(),
            n <= i32::MAX,
        ensures
            o == text_origin(self.spec_width() as int, n as int, h, v, pos),
            0 <= o <= 0x4000_0001_0000_0000,
    {
        assert(0 <= max_i(pos.1 + 0, 0) * self.width) by (nonlinear_arith)
            requires
                0 <= self.width,
        ;
        assert(0 <= max_i(pos.1 - 1, 0) * self.width) by (nonlinear_arith)
            requires
                0 <= self.width,
        ;
        let ni: i64 = n as i64;
        let dx: i64 = match h {
            HPos::Left => 0,
            HPos::Right => -ni,
            HPos::Center => -(ni / 2),
        };
        let dy: i64 = match v {
            VPos::Top => 0,
            VPos::Center => 0,
            VPos::Bottom => -1,
        };
        let row: i64 = if pos.1 as i64 + dy < 0 {
            0
        } else {
            pos.1 as i64 + dy
        };
        let col: i64 = if pos.0 as i64 + dx < 0 {
            0
        } else {
            pos.0 as i64 + dx
        };
        let wi: i64 = self.width as i64;
        assert(row * wi <= 0x4000_0000_0000_0000) by (nonlinear_arith)
            requires
                0 <= row <= 0x8000_0000,
                0 <= wi <= 0x8000_0000,
        ;
        row * wi + col
    }

    /// Tells whether column `x` of row `y` lies in the grid.
    pub fn pixel_fits(&self, x: i32, y: i32) -> (r: bool)
        requires
            self.wf(),
        ensures
            r == (0 <= x < self.spec_width() && 0 <= y < HEIGHT),
    {
        0 <= x && (x as i64) < (self.width as i64) && 0 <= y && (y as usize) < HEIGHT
    }

    /// Tells whether the cells that `draw_line` writes for a line from `from`
    /// to `to` lie in the grid.
    pub fn line_fits(&self, from: (i32, i32), to: (i32, i32)) -> (r: bool)
        requires
            self.wf(),
        ensures
            r == line_in_bounds(self.spec_width() as int, from, to),
    {
        let w = self.width as i64;
        if from.0 == to.0 {
            let lo = if from.1 <= to.1 { from.1 } else { to.1 };
            let hi = if from.1 <= to.1 { to.1 } else { from.1 };
            lo >= hi || (0 <= from.0 && (from.0 as i64) < w && 0 <= lo && (hi as i64) <= HEIGHT as i64)
        } else if from.1 == to.1 {
            let lo = if from.0 <= to.0 { from.0 } else { to.0 };
            let hi = if from.0 <= to.0 { to.0 } else { from.0 };
            lo >= hi || (0 <= from.1 && (from.1 as i64) < HEIGHT as i64 && 0 <= lo && (hi as i64) <= w)
        } else {
            true
        }
    }

    /// Tells whether the cells that `draw_text` writes for `text` anchored
    /// at `pos` lie in the grid.
    pub fn text_fits(&self, text: &str, h: HPos, v: VPos, pos: (i32, i32)) -> (r: bool)
        requires
            self.wf(),
        ensures
            r == (text_origin(self.spec_width() as int, text@.len() as int, h, v, pos)
                + text@.len() <= self.cells().len()),
    {
        let n: usize = text.unicode_len();
        if n > self.state.len() {
            return false;
        }
        let o = self.text_start(n, h, v, pos);
        o + (n as i64) <= self.state.len() as i64
    }

    /// Writes the characters of `text` one per cell, left to right, from the
    /// cell that the anchor `h`, `v` at `pos` gives; a line that runs past
    /// the right edge goes on in the next row.
    pub fn draw_text(&mut self, text: &str, h: HPos, v: VPos, pos: (i32, i32))
        requires
            old(self).wf(),
            text_origin(old(self).spec_width() as int, text@.len() as int, h, v, pos)
                + text@.len() <= old(self).cells().len(),
        ensures
            final(self).wf(),
            final(self).spec_width() == old(self).spec_width(),
            final(self).cells() == text_cells(
                old(self).cells(),
                text_origin(old(self).spec_width() as int, text@.len() as int, h, v, pos),
                text@,
            ),
    {
        let ghost start = self.state@;
        let n: usize = text.unicode_len();
        let o: i64 = self.text_start(n, h, v, pos);
        let mut k: usize = 0;
        while k < n
            invariant
                k <= n,
                n == text@.len(),
                0 <= o,
                o + n <= start.len(),
                start.len() <= i32::MAX,
                start == old(self).state@,
                self.width == old(self).width,
                self.state@.len() == start.len(),
                self.state@ == text_cells(start, o as int, text@.take(k as int)),
            decreases n - k,
        {
            let c = text.get_char(k);
            let i: usize = (o + k as i64) as usize;
            let ghost before = self.state@;
            self.update_cell(i, PixelState::Text(c));
            k = k + 1;
            proof {
                let t0 = text@.take(k - 1);
                let t1 = text@.take(k as int);
                assert forall|j: int| 0 <= j < start.len() implies #[trigger] self.state@[j]
                    == text_cells(start, o as int, t1)[j] by {
                    if j == i {
                        assert(t1[j - o] == c);
                        assert(before[j] == text_cells(start, o as int, t0)[j]);
                        assert(before[j] == start[j]);
                    } else if o <= j < o + k - 1 {
                        assert(t1[j - o] == t0[j - o]);
                        assert(before[j] == text_cells(start, o as int, t0)[j]);
                    } else {
                        assert(before[j] == text_cells(start, o as int, t0)[j]);
                    }
                }
            }
            assert(self.state@ =~= text_cells(start, o as int, text@.take(k as int)));
        }
        assert(text@.take(k as int) =~= text@);
    }

    /// The grid as text, row after row, each row followed by a line break;
    /// the grid is cleared for the next frame.
    pub fn present(&mut self) -> (r: Vec<char>)
        requires
            old(self).wf(),
        ensures
            r@ == frame_text(old(self).cells(), old(self).spec_width(), HEIGHT as nat),
            final(self).wf(),
            final(self).spec_width() == old(self).spec_width(),
            final(self).cells() == Seq::new(
                (old(self).spec_width() * HEIGHT) as nat,
                |_i: int| PixelState::Empty,
            ),
    {
        let ghost cells = self.state@;
        let w = self.width;
        let mut out: Vec<char> = Vec::new();
        let mut r: usize = 0;
        while r < HEIGHT
            invariant
                r <= HEIGHT,
                w == self.width,
                self.state@ == cells,
                cells.len() == w * HEIGHT,
                w * HEIGHT <= i32::MAX,
                out@ == frame_text(cells, w as nat, r as nat),
            decreases HEIGHT - r,
        {
            let mut c: usize = 0;
            while c < w
                invariant
                    c <= w,
                    r < HEIGHT,
                    w == self.width,
                    self.state@ == cells,
                    cells.len() == w * HEIGHT,
                    w * HEIGHT <= i32::MAX,
                    out@ == frame_text(cells, w as nat, r as nat) + row_text(
                        cells,
                        w as nat,
                        r as nat,
                    ).take(c as int),
                decreases w - c,
            {
                proof {
                    lemma_cell_index(w as int, r as int, c as int);
                    lemma_cell_bound(w as int, HEIGHT as int, r as int, c as int);
                }
                let i: usize = r * w + c;
                out.push(self.state[i].to_char());
                c = c + 1;
                assert(out@ =~= frame_text(cells, w as nat, r as nat) + row_text(
                    cells,
                    w as nat,
                    r as nat,
                ).take(c as int));
            }
            out.push('\n');
            assert(row_text(cells, w as nat, r as nat).take(c as int) =~= row_text(
                cells,
                w as nat,
                r as nat,
            ));
            r = r + 1;
            assert(out@ =~= frame_text(cells, w as nat, r as nat));
        }
        let n: usize = self.state.len();
        let mut i: usize = 0;
        while i < n
            invariant
                i <= n,
                n == cells.len(),
                w == self.width,
                self.state@.len() == n,
                forall|j: int| 0 <= j < i ==> self.state@[j] == PixelState::Empty,
            decreases n - i,
        {
            self.state.set(i, PixelState::Empty);
            i = i + 1;
        }
        assert(self.state@ =~= Seq::new((w * HEIGHT) as nat, |_i: int| PixelState::Empty));
        out
    }
}

/// Presenting a grid on which nothing is drawn gives `HEIGHT` lines of
/// `w` spaces.
pub proof fn lemma_blank_present(w: nat)
    requires
        w * HEIGHT <= i32::MAX,
    ensures
        frame_text(Seq::new((w * HEIGHT) as nat, |_i: int| PixelState::Empty), w, HEIGHT as nat)
            == blank_frame(w, HEIGHT as nat),
{
    lemma_blank_rows(w, HEIGHT as nat);
}

proof fn lemma_blank_rows(w: nat, n: nat)
    requires
        n <= HEIGHT,
    ensures
        frame_text(Seq::new((w * HEIGHT) as nat, |_i: int| PixelState::Empty), w, n) == blank_frame(w, n),
    decreases n,
{
    let cells = Seq::new((w * HEIGHT) as nat, |_i: int| PixelState::Empty);
    if n == 0 {
        assert(0 * (w + 1) == 0) by (nonlinear_arith);
        assert(blank_frame(w, 0) =~= Seq::<char>::empty());
    } else {
        let m = (n - 1) as nat;
        lemma_blank_rows(w, m);
        let prev = blank_frame(w, m);
        let row = row_text(cells, w, m);
        assert forall|c: int| 0 <= c < w implies #[trigger] row[c] == ' ' by {
            lemma_cell_bound(w as int, HEIGHT as int, m as int, c);
            assert(0 <= m * w) by (nonlinear_arith);
        }
        assert(n * (w + 1) == m * (w + 1) + (w + 1)) by (nonlinear_arith)
            requires
                n == m + 1,
        ;
        assert(0 <= m * (w + 1)) by (nonlinear_arith);
        assert forall|i: int| 0 <= i < n * (w + 1) implies #[trigger] blank_frame(w, n)[i] == (
        prev + row.push('\n'))[i] by {
            if i >= m * (w + 1) {
                let j = i - m * (w + 1);
                vstd::arithmetic::div_mod::lemma_fundamental_div_mod_converse(
                    i,
                    (w + 1) as int,
                    m as int,
                    j,
                );
            }
        }
        assert(blank_frame(w, n) =~= prev + row.push('\n'));
    }
}

proof fn lemma_merge_crossing(s: PixelState)
    requires
        !(s is HLine),
        !(s is VLine),
    ensures
        merge(merge(s, PixelState::HLine), PixelState::VLine) == merge(
            merge(s, PixelState::VLine),
            PixelState::HLine,
        ),
        !(s is Pixel) && !(s is Circle) ==> merge(merge(s, PixelState::HLine), PixelState::VLine)
            == PixelState::Cross,
{
}

/// Where a horizontal and a vertical line cross on a cell that holds no line
/// yet, they give the same cells in either order; on a cell that holds no
/// dot or circle either, the crossing shows a cross.
pub proof fn lemma_lines_commute(
    cells: Seq<PixelState>,
    w: int,
    y: int,
    x0: int,
    x1: int,
    x: int,
    y0: int,
    y1: int,
)
    requires
        0 <= x0 <= x < x1 <= w,
        0 <= y0 <= y < y1,
        y * w + x < cells.len(),
        !(cells[y * w + x] is HLine),
        !(cells[y * w + x] is VLine),
    ensures
        vline(hline(cells, w, y, x0, x1), w, x, y0, y1) == hline(
            vline(cells, w, x, y0, y1),
            w,
            y,
            x0,
            x1,
        ),
        !(cells[y * w + x] is Pixel) && !(cells[y * w + x] is Circle) ==> vline(
            hline(cells, w, y, x0, x1),
            w,
            x,
            y0,
            y1,
        )[y * w + x] == PixelState::Cross,
{
    lemma_cell_index(w, y, x);
    lemma_merge_crossing(cells[y * w + x]);
    assert forall|j: int| 0 <= j < cells.len() implies #[trigger] vline(
        hline(cells, w, y, x0, x1),
        w,
        x,
        y0,
        y1,
    )[j] == hline(vline(cells, w, x, y0, y1), w, y, x0, x1)[j] by {
        if j / w == y && j % w == x {
            vstd::arithmetic::div_mod::lemma_fundamental_div_mod(j, w);
            assert(j == y * w + x) by (nonlinear_arith)
                requires
                    j == w * (j / w) + j % w,
                    j / w == y,
                    j % w == x,
            ;
        }
    }
    assert(vline(hline(cells, w, y, x0, x1), w, x, y0, y1) =~= hline(
        vline(cells, w, x, y0, y1),
        w,
        y,
        x0,
        x1,
    ));
}

} // verus!
