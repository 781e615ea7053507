//! The mathematical model of a plot: its ranges, its grid of cells, what
//! drawing does to the grid, and the laws that follow.
use vstd::prelude::*;
use crate::rational::{lemma_trunc_is_floor, Ratio};
use crate::scale::{lemma_scale_in_range, lemma_scale_shift, ScaleView};

verus! {

/// The two ranges of a plot: `x_start <= x < x_end` runs along the columns,
/// `y_start <= y < y_end` along the rows. Each integer step is one cell.
pub struct Frame {
    pub x_start: int,
    pub x_end: int,
    pub y_start: int,
    pub y_end: int,
}

impl Frame {
    /// Both ranges are non-empty.
    pub open spec fn wf(self) -> bool {
        self.x_start < self.x_end && self.y_start < self.y_end
    }

    /// The number of columns.
    pub open spec fn width(self) -> int {
        self.x_end - self.x_start
    }

    /// The number of rows.
    pub open spec fn height(self) -> int {
        self.y_end - self.y_start
    }

    /// The scale from the horizontal range onto the columns `0..width`.
    pub open spec fn scale_x(self) -> ScaleView {
        ScaleView {
            domain_start: self.x_start,
            domain_end: self.x_end,
            range_start: 0,
            range_end: self.width(),
        }
    }

    /// The scale from the vertical range onto the rows `0..height`.
    pub open spec fn scale_y(self) -> ScaleView {
        ScaleView {
            domain_start: self.y_start,
            domain_end: self.y_end,
            range_start: 0,
            range_end: self.height(),
        }
    }

    /// Whether the line `x = 0` is visible.
    pub open spec fn shows_vertical_axis(self) -> bool {
        self.x_start <= 0 < self.x_end
    }

    /// Whether the line `y = 0` is visible.
    pub open spec fn shows_horizontal_axis(self) -> bool {
        self.y_start <= 0 < self.y_end
    }

    /// The column of the line `x = 0`. Where that line is not visible, the
    /// column is 0: the crossing mark of a visible horizontal axis then sits
    /// in the first column.
    pub open spec fn axis_column(self) -> int {
        if self.shows_vertical_axis() {
            -self.x_start
        } else {
            0
        }
    }

    /// The row of the line `y = 0`, counted from the top without flipping.
    pub open spec fn axis_row(self) -> int {
        -self.y_start
    }

    /// What the cell in row `r` and column `c` holds before any curve is
    /// drawn: `-` along the visible horizontal axis with `+` at the axis
    /// column, `|` along the rest of the visible vertical axis, and a space
    /// everywhere else.
    pub open spec fn axis_cell(self, r: int, c: int) -> char {
        if self.shows_horizontal_axis() && r == self.axis_row() {
            if c == self.axis_column() {
                '+'
            } else {
                '-'
            }
        } else if self.shows_vertical_axis() && c == self.axis_column() {
            '|'
        } else {
            ' '
        }
    }

    /// The grid that holds the axes and nothing else.
    pub open spec fn axes(self) -> Seq<Seq<char>> {
        Seq::new(
            self.height() as nat,
            |r: int| Seq::new(self.width() as nat, |c: int| self.axis_cell(r, c)),
        )
    }

    /// The cell, as row and column, that the value `sample` of a curve at
    /// `x = i` is written to. There is none when `i` is outside the
    /// horizontal range, or the sample is no number or outside the vertical
    /// range. The column is the distance of `i` from the start of the
    /// horizontal range. The row is the distance of the sample, rounded down,
    /// from the start of the vertical range, counted from the bottom: a
    /// larger value lands nearer the top.
    pub open spec fn target(self, i: int, sample: Option<Ratio>) -> Option<(int, int)> {
        match sample {
            Some(v) => {
                if v.wf() && self.x_start <= i < self.x_end && self.scale_y().contains(v) {
                    Some((self.height() - 1 - (v.floor() - self.y_start), i - self.x_start))
                } else {
                    None
                }
            },
            None => None,
        }
    }

    /// Whether a curve lands on the cell in row `r` and column `c`, where
    /// `samples[c]` is the value of the curve at `x = x_start + c`.
    pub open spec fn lands(self, samples: Seq<Option<Ratio>>, r: int, c: int) -> bool {
        0 <= c < samples.len() && self.target(self.x_start + c, samples[c]) == Some((r, c))
    }
}

/// The mathematical content of a plot: its ranges and its cells, row by row
/// from the top.
pub struct GraphView {
    pub frame: Frame,
    pub grid: Seq<Seq<char>>,
}

impl GraphView {
    /// The grid has one row per step of the vertical range and one column per
    /// step of the horizontal range.
    pub open spec fn wf(self) -> bool {
        &&& self.frame.wf()
        &&& self.grid.len() == self.frame.height()
        &&& forall|r: int|
            0 <= r < self.grid.len() ==> (#[trigger] self.grid[r]).len() == self.frame.width()
    }

    /// The plot after one sample of a curve at `x = i` is written with the
    /// marker `dot`: its target cell holds `dot`, every other cell is kept.
    pub open spec fn stamp(self, i: int, sample: Option<Ratio>, dot: char) -> GraphView {
        match self.frame.target(i, sample) {
            Some((r, c)) => GraphView {
                frame: self.frame,
                grid: self.grid.update(r, self.grid[r].update(c, dot)),
            },
            None => self,
        }
    }

    /// The plot after a whole curve is drawn with the marker `dot`, where
    /// `samples[c]` is the value of the curve at `x = x_start + c`. A cell
    /// holds `dot` if the sample of its column lands on it, and is kept
    /// otherwise.
    pub open spec fn overlay(self, samples: Seq<Option<Ratio>>, dot: char) -> GraphView {
        GraphView {
            frame: self.frame,
            grid: Seq::new(
                self.grid.len(),
                |r: int|
                    Seq::new(
                        self.grid[r].len(),
                        |c: int|
                            if self.frame.lands(samples, r, c) {
                                dot
                            } else {
                                self.grid[r][c]
                            },
                    ),
            ),
        }
    }

    /// The plot as text: each row followed by a line break, top row first.
    pub open spec fn text(self) -> Seq<char> {
        lines(self.grid)
    }
}

/// The rows one after the other, each followed by a line break.
pub open spec fn lines(rows: Seq<Seq<char>>) -> Seq<char>
    decreases rows.len(),
{
    if rows.len() == 0 {
        Seq::empty()
    } else {
        lines(rows.drop_last()) + rows.last().push('\n')
    }
}

/// The target of a sample is what the two scales give: the column is the
/// image of `i` under the horizontal scale and the row, counted from the
/// bottom, the image of the sample under the vertical scale, each rounded
/// toward zero. Both lie on the grid.
pub proof fn lemma_target_by_scale(frame: Frame, i: int, sample: Option<Ratio>)
    requires
        frame.wf(),
    ensures
        frame.x_start <= i < frame.x_end <==> frame.scale_x().contains(Ratio::from_int(i)),
        frame.target(i, sample) matches Some((r, c)) ==> {
            &&& c == frame.scale_x().scale(Ratio::from_int(i)).trunc()
            &&& r == frame.height() - 1 - frame.scale_y().scale(sample->0).trunc()
            &&& 0 <= r < frame.height()
            &&& 0 <= c < frame.width()
        },
{
    if frame.target(i, sample) is Some {
        let v: Ratio = sample->0;
        let at: Ratio = Ratio::from_int(i);
        lemma_scale_in_range(frame.scale_x(), at);
        lemma_scale_shift(frame.scale_x(), at);
        lemma_trunc_is_floor(frame.scale_x().scale(at));
        lemma_scale_in_range(frame.scale_y(), v);
        lemma_scale_shift(frame.scale_y(), v);
        lemma_trunc_is_floor(frame.scale_y().scale(v));
    }
}

/// The axes are where the two scales put zero: a visible vertical axis is in
/// the column that the horizontal scale gives for zero, a visible horizontal
/// axis in the row that the vertical scale gives for zero, each rounded
/// toward zero. Both lie on the grid.
pub proof fn lemma_axes_by_scale(frame: Frame)
    requires
        frame.wf(),
    ensures
        frame.shows_vertical_axis() <==> frame.scale_x().contains(Ratio::from_int(0)),
        frame.shows_horizontal_axis() <==> frame.scale_y().contains(Ratio::from_int(0)),
        frame.shows_vertical_axis() ==> frame.axis_column() == frame.scale_x().scale(
            Ratio::from_int(0),
        ).trunc(),
        frame.shows_horizontal_axis() ==> frame.axis_row() == frame.scale_y().scale(
            Ratio::from_int(0),
        ).trunc(),
        0 <= frame.axis_column() < frame.width(),
        frame.shows_horizontal_axis() ==> 0 <= frame.axis_row() < frame.height(),
{
    let zero: Ratio = Ratio::from_int(0);
    if frame.shows_vertical_axis() {
        lemma_scale_in_range(frame.scale_x(), zero);
        lemma_scale_shift(frame.scale_x(), zero);
        lemma_trunc_is_floor(frame.scale_x().scale(zero));
    }
    if frame.shows_horizontal_axis() {
        lemma_scale_in_range(frame.scale_y(), zero);
        lemma_scale_shift(frame.scale_y(), zero);
        lemma_trunc_is_floor(frame.scale_y().scale(zero));
    }
}

/// Writing the sample of the next column after a partly drawn curve gives
/// the curve drawn one column further.
pub proof fn lemma_overlay_push(
    g: GraphView,
    samples: Seq<Option<Ratio>>,
    sample: Option<Ratio>,
    dot: char,
)
    requires
        g.wf(),
        samples.len() < g.frame.width(),
    ensures
        g.overlay(samples, dot).stamp(g.frame.x_start + samples.len(), sample, dot) == g.overlay(
            samples.push(sample),
            dot,
        ),
{
    let i: int = g.frame.x_start + samples.len();
    let before: GraphView = g.overlay(samples, dot);
    let after: GraphView = g.overlay(samples.push(sample), dot);
    lemma_target_by_scale(g.frame, i, sample);
    assert forall|c: int| 0 <= c < samples.len() implies samples.push(sample)[c] == samples[c] by {}
    assert(before.stamp(i, sample, dot).grid =~~= after.grid);
}

/// Drawing a curve keeps the ranges and the size of the grid.
pub proof fn lemma_overlay_wf(g: GraphView, samples: Seq<Option<Ratio>>, dot: char)
    requires
        g.wf(),
    ensures
        g.overlay(samples, dot).wf(),
        g.overlay(samples, dot).frame == g.frame,
{
}

/// Where zero is outside the horizontal range, no vertical axis is drawn: no
/// cell of the fresh grid holds `|`, and every cell outside the row of the
/// horizontal axis is blank.
pub proof fn lemma_no_vertical_axis(frame: Frame)
    requires
        frame.wf(),
        !(frame.x_start <= 0 < frame.x_end),
    ensures
        forall|r: int, c: int|
            0 <= r < frame.height() && 0 <= c < frame.width() ==> #[trigger] frame.axes()[r][c]
                != '|',
        forall|r: int, c: int|
            0 <= r < frame.height() && 0 <= c < frame.width() && !(frame.y_start <= 0
                < frame.y_end && r == -frame.y_start) ==> #[trigger] frame.axes()[r][c] == ' ',
{
}

/// Where zero is inside both ranges, the vertical axis fills column
/// `-x_start`, the horizontal axis fills row `-y_start`, and the cell where
/// they cross holds `+`.
pub proof fn lemma_both_axes(frame: Frame)
    requires
        frame.wf(),
        frame.x_start <= 0 < frame.x_end,
        frame.y_start <= 0 < frame.y_end,
    ensures
        frame.axes()[-frame.y_start][-frame.x_start] == '+',
        forall|c: int|
            0 <= c < frame.width() && c != -frame.x_start ==> #[trigger] frame.axes()[-frame
                .y_start][c] == '-',
        forall|r: int|
            0 <= r < frame.height() && r != -frame.y_start ==> (#[trigger] frame.axes()[r])[-frame
                .x_start] == '|',
        forall|r: int, c: int|
            0 <= r < frame.height() && 0 <= c < frame.width() && r != -frame.y_start && c
                != -frame.x_start ==> #[trigger] frame.axes()[r][c] == ' ',
{
}

/// A curve that is zero everywhere, drawn on a plot whose vertical range
/// holds zero, puts its marker in every column of one row: the row
/// `height - 1 + y_start`. Whatever that row held before, the dashes of the
/// horizontal axis too, is overwritten; every other row is kept.
pub proof fn lemma_zero_curve(g: GraphView, samples: Seq<Option<Ratio>>, dot: char)
    requires
        g.wf(),
        g.frame.y_start <= 0 < g.frame.y_end,
        samples.len() == g.frame.width(),
        forall|c: int|
            0 <= c < samples.len() ==> (#[trigger] samples[c] matches Some(v) && v.wf() && v.num
                == 0),
    ensures
        0 <= g.frame.height() - 1 + g.frame.y_start < g.frame.height(),
        forall|c: int|
            0 <= c < g.frame.width() ==> #[trigger] g.overlay(samples, dot).grid[g.frame.height()
                - 1 + g.frame.y_start][c] == dot,
        forall|r: int, c: int|
            0 <= r < g.frame.height() && 0 <= c < g.frame.width() && r != g.frame.height() - 1
                + g.frame.y_start ==> #[trigger] g.overlay(samples, dot).grid[r][c] == g.grid[r][c],
{
    let row: int = g.frame.height() - 1 + g.frame.y_start;
    assert forall|c: int| 0 <= c < g.frame.width() implies g.frame.target(
        g.frame.x_start + c,
        #[trigger] samples[c],
    ) == Some((row, c)) by {
        let v: Ratio = samples[c]->0;
        assert(v.floor() == 0) by (nonlinear_arith)
            requires
                v.floor() == v.num / v.den,
                v.num == 0,
                v.den > 0,
        ;
        assert(g.frame.scale_y().contains(v)) by (nonlinear_arith)
            requires
                g.frame.scale_y().contains(v) == (g.frame.y_start * v.den <= v.num * 1 && v.num * 1
                    < g.frame.y_end * v.den),
                v.num == 0,
                v.den > 0,
                g.frame.y_start <= 0 < g.frame.y_end,
        ;
    }
    assert forall|c: int| 0 <= c < g.frame.width() implies #[trigger] g.overlay(
        samples,
        dot,
    ).grid[row][c] == dot by {
        assert(g.frame.lands(samples, row, c));
    }
    assert forall|r: int, c: int|
        0 <= r < g.frame.height() && 0 <= c < g.frame.width() && r != row implies #[trigger] g
            .overlay(samples, dot).grid[r][c] == g.grid[r][c] by {
        assert(!g.frame.lands(samples, r, c));
    }
}

/// The place in the text of the character in line `r` and column `c`, where
/// each line holds `width` characters and a line break.
pub open spec fn text_index(width: int, r: int, c: int) -> int {
    r * (width + 1) + c
}

/// The text of rows that are all `width` long is laid out line by line: row
/// `r` fills the places `text_index(width, r, 0)` to
/// `text_index(width, r, width - 1)`, and a line break follows it.
pub proof fn lemma_lines_layout(rows: Seq<Seq<char>>, width: int)
    requires
        0 <= width,
        forall|r: int| 0 <= r < rows.len() ==> (#[trigger] rows[r]).len() == width,
    ensures
        lines(rows).len() == rows.len() * (width + 1),
        forall|r: int, c: int|
            0 <= r < rows.len() && 0 <= c < width ==> lines(rows)[#[trigger] text_index(
                width,
                r,
                c,
            )] == rows[r][c],
        forall|r: int|
            0 <= r < rows.len() ==> lines(rows)[#[trigger] text_index(width, r, width)] == '\n',
    decreases rows.len(),
{
    if rows.len() > 0 {
        let above: Seq<Seq<char>> = rows.drop_last();
        let n: int = above.len() as int;
        lemma_lines_layout(above, width);
        assert(rows.len() * (width + 1) == n * (width + 1) + (width + 1)) by (nonlinear_arith)
            requires
                rows.len() == n + 1,
        ;
        assert forall|r: int, c: int| 0 <= r < rows.len() && 0 <= c <= width implies {
            &&& 0 <= text_index(width, r, c) < lines(rows).len()
            &&& r < n ==> text_index(width, r, c) < lines(above).len()
            &&& r == n ==> text_index(width, r, c) == lines(above).len() + c
        } by {
            assert(r < n ==> r * (width + 1) + (width + 1) <= n * (width + 1)) by (nonlinear_arith)
                requires
                    0 <= width,
            ;
            assert(0 <= r * (width + 1)) by (nonlinear_arith)
                requires
                    0 <= r,
                    0 <= width,
            ;
        }
        assert forall|r: int, c: int| 0 <= r < rows.len() && 0 <= c < width implies lines(
            rows,
        )[#[trigger] text_index(width, r, c)] == rows[r][c] by {
            if r < n {
                assert(above[r] == rows[r]);
            }
        }
        assert forall|r: int| 0 <= r < rows.len() implies lines(rows)[#[trigger] text_index(
            width,
            r,
            width,
        )] == '\n' by {}
    } else {
        assert(rows.len() * (width + 1) == 0) by (nonlinear_arith)
            requires
                rows.len() == 0,
        ;
    }
}

/// The text of a plot is `height` lines of `width` characters, each line
/// followed by a line break: line `r` holds row `r` of the grid.
pub proof fn lemma_text_layout(g: GraphView)
    requires
        g.wf(),
    ensures
        g.text().len() == g.frame.height() * (g.frame.width() + 1),
        forall|r: int, c: int|
            0 <= r < g.frame.height() && 0 <= c < g.frame.width() ==> g.text()[#[trigger]
            text_index(g.frame.width(), r, c)] == g.grid[r][c],
        forall|r: int|
            0 <= r < g.frame.height() ==> g.text()[#[trigger] text_index(
                g.frame.width(),
                r,
                g.frame.width(),
            )] == '\n',
{
    lemma_lines_layout(g.grid, g.frame.width());
}

/// The text of a plot depends on its cells alone: plots with the same grid
/// give the same text, however often it is taken.
pub proof fn lemma_text_repeatable(a: GraphView, b: GraphView)
    requires
        a.grid == b.grid,
    ensures
        a.text() == b.text(),
{
}

/// Drawing is restartable: a curve drawn a second time with the same marker
/// changes nothing.
pub proof fn lemma_overlay_again(g: GraphView, samples: Seq<Option<Ratio>>, dot: char)
    requires
        g.wf(),
    ensures
        g.overlay(samples, dot).overlay(samples, dot) == g.overlay(samples, dot),
{
    assert(g.overlay(samples, dot).overlay(samples, dot).grid =~~= g.overlay(samples, dot).grid);
}

/// Two curves drawn in either order give the same cell wherever at most one
/// of them lands. Where both land on a cell, the cell holds the marker of the
/// curve drawn last.
pub proof fn lemma_overlay_order(
    g: GraphView,
    first: Seq<Option<Ratio>>,
    dot_first: char,
    second: Seq<Option<Ratio>>,
    dot_second: char,
)
    requires
        g.wf(),
    ensures
        forall|r: int, c: int|
            0 <= r < g.frame.height() && 0 <= c < g.frame.width() ==> {
                let forth = #[trigger] g.overlay(first, dot_first).overlay(
                    second,
                    dot_second,
                ).grid[r][c];
                let back = g.overlay(second, dot_second).overlay(first, dot_first).grid[r][c];
                if g.frame.lands(first, r, c) && g.frame.lands(second, r, c) {
                    forth == dot_second && back == dot_first
                } else {
                    forth == back
                }
            },
{
}

} // verus!
