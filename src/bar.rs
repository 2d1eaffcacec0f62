use vstd::prelude::*;

use crate::decimal::{decimal_text, push_decimal};

verus! {

/// The width, in cells, of the bar for `x` on the scale `[min, max]` drawn
/// `width` cells wide: the floor of `(x - min) / (max - min) * width`, and 0
/// below the scale.
pub open spec fn bar_width(x: int, min: int, max: int, width: int) -> int {
    if x < min {
        0
    } else {
        (x - min) * width / (max - min)
    }
}

/// `bar_width` held to what a `usize` can count.
pub open spec fn saturated_bar_width(x: int, min: int, max: int, width: int) -> int {
    if bar_width(x, min, max, width) > usize::MAX {
        usize::MAX as int
    } else {
        bar_width(x, min, max, width)
    }
}

proof fn lemma_bar_within(d: int, span: int, width: int)
    requires
        0 <= d <= span,
        0 < span,
        0 <= width,
    ensures
        0 <= d * width / span <= width,
{
    assert(0 <= d * width) by (nonlinear_arith)
        requires
            0 <= d,
            0 <= width,
    ;
    assert(d * width <= span * width) by (nonlinear_arith)
        requires
            d <= span,
            0 <= width,
    ;
    vstd::arithmetic::div_mod::lemma_div_is_ordered(d * width, span * width, span);
    vstd::arithmetic::div_mod::lemma_div_multiples_vanish(width, span);
    vstd::arithmetic::div_mod::lemma_div_pos_is_pos(d * width, span);
}

/// The width of the bar for `x` on the scale `[min, max]` drawn `width` cells
/// wide. Below the scale it is 0; within the scale it is at most `width`.
pub fn calculate_bar_width(x: i64, min: i64, max: i64, width: usize) -> (r: usize)
    requires
        min < max,
    ensures
        r as int == saturated_bar_width(x as int, min as int, max as int, width as int),
        x < min ==> r == 0,
        min <= x <= max ==> r <= width && r as int == bar_width(
            x as int,
            min as int,
            max as int,
            width as int,
        ),
{
    if x < min {
        return 0;
    }
    let d: u128 = (x as i128 - min as i128) as u128;
    let span: u128 = (max as i128 - min as i128) as u128;
    let w: u128 = width as u128;
    assert(d * w <= u128::MAX) by (nonlinear_arith)
        requires
            d <= u64::MAX,
            w <= u64::MAX,
    ;
    let q: u128 = d * w / span;
    proof {
        if x <= max {
            lemma_bar_within(d as int, span as int, w as int);
        }
    }
    if q > usize::MAX as u128 {
        usize::MAX
    } else {
        q as usize
    }
}

/// The fixed scale `[min, max]` of a chart, in thousandths.
#[derive(Clone, Copy, Debug)]
pub struct Range {
    pub min: i64,
    pub max: i64,
}

impl Range {
    pub open spec fn wf(&self) -> bool {
        self.min < self.max
    }

    pub fn new(min: i64, max: i64) -> (r: Range)
        requires
            min < max,
        ensures
            r.min == min,
            r.max == max,
            r.wf(),
    {
        Range { min, max }
    }
}

/// What a plotter is configured with: the scale and the width in cells.
#[derive(Clone, Copy, Debug)]
pub struct PlotterOpt {
    pub range: Range,
    pub width: usize,
}

/// `n` copies of the byte `b`.
pub open spec fn repeat(b: u8, n: nat) -> Seq<u8> {
    Seq::new(n, |_i: int| b)
}

/// The bar for `x`: `=` for the filled part and `.` for the rest; below the
/// scale an `X` at the left edge, above it an `X` at the right edge.
pub open spec fn bar_cells(x: int, min: int, max: int, width: nat) -> Seq<u8> {
    if x < min {
        if width == 0 {
            Seq::empty()
        } else {
            seq![88u8] + repeat(46u8, (width - 1) as nat)
        }
    } else if x > max {
        if width == 0 {
            Seq::empty()
        } else {
            repeat(61u8, (width - 1) as nat) + seq![88u8]
        }
    } else {
        let filled = bar_width(x, min, max, width as int);
        repeat(61u8, filled as nat) + repeat(46u8, (width - filled) as nat)
    }
}

/// One line of the bar view: the bar, a space, and the value in decimal.
pub open spec fn bar_line(x: int, min: int, max: int, width: nat) -> Seq<u8> {
    bar_cells(x, min, max, width) + seq![32u8] + decimal_text(x)
}

fn push_repeat(out: &mut Vec<u8>, b: u8, n: usize)
    ensures
        final(out)@ == old(out)@ + repeat(b, n as nat),
{
    let ghost start = out@;
    let mut i: usize = 0;
    while i < n
        invariant
            i <= n,
            out@ == start + repeat(b, i as nat),
        decreases n - i,
    {
        out.push(b);
        i = i + 1;
        assert(out@ =~= start + repeat(b, i as nat));
    }
}

/// Draws each value as one line of text: a bar across a fixed width, then
/// the value. The lines gather in an output buffer.
pub struct TextPlotter {
    width: usize,
    range: Range,
    output: Vec<u8>,
}

impl TextPlotter {
    pub closed spec fn spec_width(&self) -> nat {
        self.width as nat
    }

    pub closed spec fn spec_range(&self) -> Range {
        self.range
    }

    /// What has been drawn and not yet taken.
    pub closed spec fn spec_output(&self) -> Seq<u8> {
        self.output@
    }

    pub open spec fn wf(&self) -> bool {
        self.spec_range().wf()
    }

    pub fn new(opt: PlotterOpt) -> (r: TextPlotter)
        requires
            opt.range.wf(),
        ensures
            r.wf(),
            r.spec_width() == opt.width,
            r.spec_range() == opt.range,
            r.spec_output() == Seq::<u8>::empty(),
    {
        TextPlotter { width: opt.width, range: opt.range, output: Vec::new() }
    }

    /// The line drawn for `x`, without its line break.
    pub fn render(&self, x: i64) -> (r: Vec<u8>)
        requires
            self.wf(),
        ensures
            r@ == bar_line(
                x as int,
                self.spec_range().min as int,
                self.spec_range().max as int,
                self.spec_width(),
            ),
    {
        let mut out: Vec<u8> = Vec::new();
        let w = self.width;
        if x < self.range.min {
            if w > 0 {
                out.push(88u8);
                push_repeat(&mut out, 46u8, w - 1);
            }
        } else if x > self.range.max {
            if w > 0 {
                push_repeat(&mut out, 61u8, w - 1);
                out.push(88u8);
            }
        } else {
            let filled = calculate_bar_width(x, self.range.min, self.range.max, w);
            push_repeat(&mut out, 61u8, filled);
            push_repeat(&mut out, 46u8, w - filled);
        }
        assert(out@ =~= bar_cells(
            x as int,
            self.range.min as int,
            self.range.max as int,
            w as nat,
        ));
        out.push(32u8);
        push_decimal(&mut out, x);
        out
    }

    /// Draws `x`: its line and a line break are added to the output.
    pub fn update(&mut self, x: i64)
        requires
            old(self).wf(),
        ensures
            final(self).wf(),
            final(self).spec_width() == old(self).spec_width(),
            final(self).spec_range() == old(self).spec_range(),
            final(self).spec_output() == old(self).spec_output() + bar_line(
                x as int,
                old(self).spec_range().min as int,
                old(self).spec_range().max as int,
                old(self).spec_width(),
            ) + seq![10u8],
    {
        let line = self.render(x);
        let mut i: usize = 0;
        let ghost start = self.output@;
        while i < line.len()
            invariant
                i <= line@.len(),
                self.output@ == start + line@.take(i as int),
                self.width == old(self).width,
                self.range == old(self).range,
            decreases line@.len() - i,
        {
            self.output.push(line[i]);
            i = i + 1;
            assert(self.output@ =~= start + line@.take(i as int));
        }
        assert(line@.take(i as int) =~= line@);
        self.output.push(10u8);
    }

    /// What has been drawn so far.
    pub fn output(&self) -> (r: &Vec<u8>)
        ensures
            r@ == self.spec_output(),
    {
        &self.output
    }

    /// Hands out what has been drawn and empties the buffer.
    pub fn take_output(&mut self) -> (r: Vec<u8>)
        ensures
            r@ == old(self).spec_output(),
            final(self).spec_output() == Seq::<u8>::empty(),
            final(self).spec_width() == old(self).spec_width(),
            final(self).spec_range() == old(self).spec_range(),
    {
        let mut taken: Vec<u8> = Vec::new();
        std::mem::swap(&mut self.output, &mut taken);
        taken
    }
}

} // verus!
