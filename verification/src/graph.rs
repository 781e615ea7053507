//! The plot: a grid of characters that holds the zero axes and the curves.
use vstd::prelude::*;
use std::ops::Range;
use crate::frame::{
    lemma_axes_by_scale, lemma_overlay_push, lemma_target_by_scale, lines, Frame, GraphView,
};
use crate::rational::{Ratio, Rational};
use crate::scale::LinearScale;

verus! {

/// One value of a curve: a number, or the mark that the curve has no finite
/// value at that point.
#[derive(Clone, Copy, Debug)]
pub enum Sample {
    /// The curve has this value.
    Finite(Rational),
    /// The curve is infinite or undefined here. Such a sample is never drawn.
    NotFinite,
}

impl View for Sample {
    type V = Option<Ratio>;

    open spec fn view(&self) -> Option<Ratio> {
        match self {
            Sample::Finite(v) => Some(v@),
            Sample::NotFinite => None,
        }
    }
}

/// Why a plot could not be built.
#[derive(Clone, Copy, Debug, PartialEq, Eq)]
pub enum GraphError {
    /// The horizontal range holds no value: its end is not above its start.
    EmptyHorizontalRange,
    /// The vertical range holds no value: its end is not above its start.
    EmptyVerticalRange,
}

/// A plot: a grid of characters over a horizontal and a vertical range, one
/// cell per integer step, with its two scales.
pub struct Graph {
    x: Range<i64>,
    y: Range<i64>,
    image: Vec<Vec<char>>,
    scale_x: LinearScale,
    scale_y: LinearScale,
    width: usize,
    height: usize,
}

impl View for Graph {
    type V = GraphView;

    closed spec fn view(&self) -> GraphView {
        GraphView {
            frame: Frame {
                x_start: self.x.start as int,
                x_end: self.x.end as int,
                y_start: self.y.start as int,
                y_end: self.y.end as int,
            },
            grid: Seq::new(self.image@.len(), |r: int| self.image@[r]@),
        }
    }
}

/// A row of `width` spaces.
fn blank_row(width: usize) -> (row: Vec<char>)
    ensures
        row@ == Seq::new(width as nat, |c: int| ' '),
{
    let mut row: Vec<char> = Vec::new();
    let mut c: usize = 0;
    while c < width
        invariant
            c <= width,
            row@ == Seq::new(c as nat, |c: int| ' '),
        decreases width - c,
    {
        row.push(' ');
        c = c + 1;
        assert(row@ =~= Seq::new(c as nat, |c: int| ' '));
    }
    row
}

/// Appends one character to a text. This is `String::push` of the standard
/// library, which is taken on trust here: the text afterwards is the text
/// before with `c` at its end.
#[verifier::external_body]
fn push_char(text: &mut String, c: char)
    ensures
        final(text)@ == old(text)@.push(c),
{
    text.push(c);
}

/// `samples` holds, for each `x` from `x_start` on, a value that `curve` may
/// return for it.
pub open spec fn sampled_from<F: Fn(i64) -> Sample>(
    curve: F,
    x_start: int,
    samples: Seq<Sample>,
) -> bool {
    forall|k: int|
        0 <= k < samples.len() ==> call_ensures(
            curve,
            ((x_start + k) as i64,),
            #[trigger] samples[k],
        )
}

/// The numbers that the samples stand for.
pub open spec fn values(samples: Seq<Sample>) -> Seq<Option<Ratio>> {
    samples.map_values(|s: Sample| s@)
}

impl Graph {
    /// The grid and the two scales fit the ranges. A plot built by `new` is
    /// well-formed and stays so.
    pub closed spec fn wf(&self) -> bool {
        &&& self.x.start < self.x.end
        &&& self.y.start < self.y.end
        &&& self.width == self.x.end - self.x.start
        &&& self.height == self.y.end - self.y.start
        &&& self.scale_x@ == self@.frame.scale_x()
        &&& self.scale_y@ == self@.frame.scale_y()
        &&& self.image@.len() == self.height
        &&& forall|r: int|
            0 <= r < self.image@.len() ==> (#[trigger] self.image@[r])@.len() == self.width
    }

    /// A plot over the horizontal range `x` and the vertical range `y`, with
    /// the zero axes drawn and no curve. A range whose end is not above its
    /// start is refused, the horizontal one first. Each range must be short
    /// enough for its length to be the length of a vector.
    pub fn new(x: Range<i64>, y: Range<i64>) -> (r: Result<Graph, GraphError>)
        requires
            x.end - x.start <= isize::MAX,
            y.end - y.start <= isize::MAX,
        ensures
            match r {
                Ok(g) => {
                    &&& x.start < x.end
                    &&& y.start < y.end
                    &&& g@.frame == (Frame {
                        x_start: x.start as int,
                        x_end: x.end as int,
                        y_start: y.start as int,
                        y_end: y.end as int,
                    })
                    &&& g@.grid == g@.frame.axes()
                    &&& g.wf()
                    &&& g@.wf()
                },
                Err(e) => {
                    if x.end <= x.start {
                        e == GraphError::EmptyHorizontalRange
                    } else {
                        y.end <= y.start && e == GraphError::EmptyVerticalRange
                    }
                },
            },
    {
        if x.end <= x.start {
            return Err(GraphError::EmptyHorizontalRange);
        }
        if y.end <= y.start {
            return Err(GraphError::EmptyVerticalRange);
        }
        let width: usize = (x.end as i128 - x.start as i128) as usize;
        let height: usize = (y.end as i128 - y.start as i128) as usize;
        let scale_x: LinearScale = match LinearScale::new(x.start..x.end, 0..(width as i64)) {
            Ok(s) => s,
            Err(_) => {
                return Err(GraphError::EmptyHorizontalRange);
            },
        };
        let scale_y: LinearScale = match LinearScale::new(y.start..y.end, 0..(height as i64)) {
            Ok(s) => s,
            Err(_) => {
                return Err(GraphError::EmptyVerticalRange);
            },
        };
        let ghost frame: Frame = Frame {
            x_start: x.start as int,
            x_end: x.end as int,
            y_start: y.start as int,
            y_end: y.end as int,
        };
        proof {
            lemma_axes_by_scale(frame);
        }
        let mut image: Vec<Vec<char>> = Vec::new();
        let mut r: usize = 0;
        while r < height
            invariant
                r <= height,
                image@.len() == r,
                forall|k: int|
                    0 <= k < r ==> (#[trigger] image@[k])@ == Seq::new(width as nat, |c: int| ' '),
            decreases height - r,
        {
            image.push(blank_row(width));
            r = r + 1;
        }
        let zero: Rational = Rational::from_int(0);
        // the vertical axis, the line x = 0
        let mut axis_column: usize = 0;
        if scale_x.check_domain(&zero) {
            if let Some(at) = scale_x.scale(&zero) {
                axis_column = at.trunc() as usize;
            }
            let mut r: usize = 0;
            while r < height
                invariant
                    r <= height,
                    axis_column < width,
                    image@.len() == height,
                    forall|k: int| 0 <= k < height ==> (#[trigger] image@[k])@.len() == width,
                    forall|k: int, c: int|
                        0 <= k < height && 0 <= c < width ==> (#[trigger] image@[k]@[c]) == (if k
                            < r && c == axis_column {
                            '|'
                        } else {
                            ' '
                        }),
                decreases height - r,
            {
                image[r][axis_column] = '|';
                r = r + 1;
            }
        }
        // the horizontal axis, the line y = 0, with the crossing mark
        let ghost upright: Seq<Seq<char>> = Seq::new(height as nat, |k: int| image@[k]@);
        if scale_y.check_domain(&zero) {
            let mut axis_row: usize = 0;
            if let Some(at) = scale_y.scale(&zero) {
                axis_row = at.trunc() as usize;
            }
            let mut c: usize = 0;
            while c < width
                invariant
                    c <= width,
                    axis_row < height,
                    image@.len() == height,
                    forall|k: int| 0 <= k < height ==> (#[trigger] image@[k])@.len() == width,
                    forall|k: int, j: int|
                        0 <= k < height && 0 <= j < width ==> (#[trigger] image@[k]@[j]) == (if k
                            == axis_row && j < c {
                            if j == axis_column {
                                '+'
                            } else {
                                '-'
                            }
                        } else {
                            upright[k][j]
                        }),
                decreases width - c,
            {
                image[axis_row][c] = if c == axis_column {
                    '+'
                } else {
                    '-'
                };
                c = c + 1;
            }
        }
        let g: Graph = Graph { x, y, image, scale_x, scale_y, width, height };
        proof {
            assert forall|k: int, c: int| 0 <= k < height && 0 <= c < width implies g@.grid[k][c]
                == frame.axis_cell(k, c) by {
                assert(g@.grid[k][c] == g.image@[k]@[c]);
            }
            assert(g@.grid =~~= frame.axes());
        }
        Ok(g)
    }

    /// The number of columns.
    pub fn width(&self) -> (w: usize)
        requires
            self.wf(),
        ensures
            w == self@.frame.width(),
    {
        self.width
    }

    /// The number of rows.
    pub fn height(&self) -> (h: usize)
        requires
            self.wf(),
        ensures
            h == self@.frame.height(),
    {
        self.height
    }

    /// Writes one sample of a curve, taken at `x = i`, with the marker `dot`.
    /// A sample that is not finite, lies outside the vertical range, or is
    /// taken outside the horizontal range leaves the plot as it is.
    pub fn plot_sample(&mut self, i: i64, sample: &Sample, dot: char)
        requires
            old(self).wf(),
        ensures
            final(self).wf(),
            final(self)@.wf(),
            final(self)@ == old(self)@.stamp(i as int, sample@, dot),
    {
        let at: Rational = Rational::from_int(i);
        if !self.scale_x.check_domain(&at) {
            return ;
        }
        let plot_x: i64 = match self.scale_x.scale(&at) {
            Some(image) => image.trunc(),
            None => {
                return ;
            },
        };
        match sample {
            Sample::NotFinite => {},
            Sample::Finite(value) => {
                if !self.scale_y.check_domain(value) {
                    return ;
                }
                let plot_y: i64 = match self.scale_y.scale(value) {
                    Some(image) => image.trunc(),
                    None => {
                        return ;
                    },
                };
                proof {
                    use_type_invariant(value);
                    lemma_target_by_scale(self@.frame, i as int, sample@);
                }
                let row: usize = self.height - 1 - plot_y as usize;
                self.image[row][plot_x as usize] = dot;
                proof {
                    assert(final(self)@.grid =~~= old(self)@.stamp(i as int, sample@, dot).grid);
                }
            },
        }
    }

    /// Draws a curve with the marker `dot`: for each integer `x` of the
    /// horizontal range, from its start upward, `curve` is called once and
    /// its value is written as `plot_sample` writes it. What was in a cell
    /// before is overwritten.
    pub fn curve<F: Fn(i64) -> Sample>(&mut self, curve: F, dot: char)
        requires
            old(self).wf(),
            forall|i: i64|
                old(self)@.frame.x_start <= i < old(self)@.frame.x_end ==> call_requires(
                    curve,
                    (i,),
                ),
        ensures
            final(self).wf(),
            final(self)@.wf(),
            exists|samples: Seq<Sample>|
                {
                    &&& #[trigger] sampled_from(curve, old(self)@.frame.x_start, samples)
                    &&& samples.len() == old(self)@.frame.width()
                    &&& final(self)@ == old(self)@.overlay(values(samples), dot)
                },
    {
        let ghost start: GraphView = self@;
        let ghost mut samples: Seq<Sample> = Seq::empty();
        let end: i64 = self.x.end;
        let mut i: i64 = self.x.start;
        proof {
            assert(self@.grid =~~= start.overlay(values(samples), dot).grid);
        }
        while i < end
            invariant
                self.wf(),
                start.wf(),
                start.frame.x_start <= i <= end,
                end == start.frame.x_end,
                samples.len() == i - start.frame.x_start,
                sampled_from(curve, start.frame.x_start, samples),
                self@ == start.overlay(values(samples), dot),
                forall|j: i64|
                    start.frame.x_start <= j < start.frame.x_end ==> call_requires(curve, (j,)),
            decreases end - i,
        {
            let sample: Sample = curve(i);
            self.plot_sample(i, &sample, dot);
            proof {
                lemma_overlay_push(start, values(samples), sample@, dot);
                assert(values(samples.push(sample)) =~= values(samples).push(sample@));
                samples = samples.push(sample);
            }
            i = i + 1;
        }
    }

    /// The plot as text: each row of the grid, top row first, followed by a
    /// line break.
    pub fn draw(&self) -> (text: String)
        requires
            self.wf(),
        ensures
            text@ == self@.text(),
    {
        let mut text: String = String::new();
        let mut r: usize = 0;
        assert(self@.grid.take(0) =~= Seq::<Seq<char>>::empty());
        while r < self.height
            invariant
                r <= self.height,
                self.image@.len() == self.height,
                forall|k: int|
                    0 <= k < self.image@.len() ==> (#[trigger] self.image@[k])@.len() == self.width,
                text@ == lines(self@.grid.take(r as int)),
            decreases self.height - r,
        {
            let ghost before: Seq<char> = text@;
            let mut c: usize = 0;
            while c < self.width
                invariant
                    r < self.height,
                    c <= self.width,
                    self.image@.len() == self.height,
                    self.image@[r as int]@.len() == self.width,
                    text@ == before + self.image@[r as int]@.take(c as int),
                decreases self.width - c,
            {
                push_char(&mut text, self.image[r][c]);
                c = c + 1;
                assert(text@ =~= before + self.image@[r as int]@.take(c as int));
            }
            push_char(&mut text, '\n');
            r = r + 1;
            proof {
                let rows: Seq<Seq<char>> = self@.grid.take(r as int);
                assert(rows.drop_last() =~= self@.grid.take(r - 1));
                assert(rows.last() == self.image@[r - 1]@);
                assert(self.image@[r - 1]@.take(self.width as int) =~= self.image@[r - 1]@);
                assert(text@ =~= lines(rows.drop_last()) + rows.last().push('\n'));
            }
        }
        assert(self@.grid.take(r as int) =~= self@.grid);
        text
    }
}

} // verus!
