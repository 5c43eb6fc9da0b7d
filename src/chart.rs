//! The chart: its data, its options, and the steps that its bars take.
use vstd::prelude::*;

use crate::params::{ChartComparison, ChartOptions, DisplayMode, ViewPreference};
use crate::palette::{is_painted, Palette};
use crate::render::{
    bar_text, bars_text, body_text, bottom_value, chart_text, chart_width, decimal_len, glyph_of,
    label_cell, legend_columns, legend_row_cells, legend_rows, legend_text, lemma_decimal_len,
    line_text, offset_row, offset_width, offsets_text, push_all, push_decimal, push_pad, tick_text,
    text_of, tick_width, top_value, truncated, visible_max, visible_min, BRIGHT, DIM, LEGEND_CELL_WIDTH, OVER, UNDER,
};
use crate::scale::{lemma_step_range, max_steps, step_of, Scale};

verus! {

/// What a chart holds, as mathematical values.
pub struct ChartView {
    /// The primary series.
    pub data: Seq<u32>,
    /// The comparison series, if any.
    pub compare: Option<Seq<u32>>,
    /// Lines of text that the bars may fill.
    pub height: nat,
    /// How outliers are displayed.
    pub view: ViewPreference,
    /// The labels of the legend, in portrait mode.
    pub labels: Option<Seq<Seq<char>>>,
}

impl ChartView {
    /// The comparison series, or nothing.
    pub open spec fn compared(self) -> Seq<u32> {
        match self.compare {
            Some(c) => c,
            None => Seq::empty(),
        }
    }

    /// All measurements of both series, on which the fitting depends.
    pub open spec fn all(self) -> Seq<u32> {
        self.data + self.compared()
    }

    /// The step of measurement `m` in this chart.
    pub open spec fn step(self, m: u32) -> int {
        step_of(m, self.height, self.view, self.all())
    }

    /// The lengths that a chart is built with.
    pub open spec fn wf(self) -> bool {
        &&& 1 <= self.data.len() <= 100
        &&& self.compare is Some ==> self.compared().len() == self.data.len()
        &&& self.labels is Some ==> self.labels->0.len() == self.data.len()
        &&& 1 <= self.height <= 8191
    }
}

/// Every step of a chart's measurements is a marker (-2, -1 or 0) or lies in
/// `1..=8 * height`.
pub proof fn lemma_chart_step_range(c: ChartView, i: int)
    requires
        c.wf(),
        0 <= i < c.all().len(),
    ensures
        ({
            let st = c.step(c.all()[i]);
            st == -2 || st == -1 || st == 0 || (1 <= st <= max_steps(c.height))
        }),
{
    lemma_step_range(c.height, c.view, c.all(), i);
}

/// A zero measurement takes step 0 in every chart.
pub proof fn lemma_zero_step(c: ChartView)
    ensures
        c.step(0) == 0,
{
}

/// Labels as sequences of characters.
pub open spec fn labels_view(labels: Seq<&str>) -> Seq<Seq<char>> {
    labels.map_values(|l: &str| l@)
}

/// Display a slice of up to 100 `u32` values.
pub struct Chart<'a> {
    data: &'a [u32],
    compare: Option<ChartComparison<'a>>,
    options: ChartOptions<'a>,
}

impl<'a> View for Chart<'a> {
    type V = ChartView;

    closed spec fn view(&self) -> ChartView {
        ChartView {
            data: self.data@,
            compare: match self.compare {
                Some(c) => Some(c.data@),
                None => None,
            },
            height: self.options.height as nat,
            view: self.options.view,
            labels: match self.options.display {
                DisplayMode::Portrait { labels } => Some(labels_view(labels@)),
                DisplayMode::Compact => None,
            },
        }
    }
}

impl<'a> Chart<'a> {
    /// A chart of `data`, with `compare` beside it. `data` holds 1 to 100 values,
    /// `compare` and the labels as many; the height is 1 to 8191 lines, so that
    /// its steps, eight to a line, fit in 16 bits.
    pub fn new(data: &'a [u32], compare: Option<ChartComparison<'a>>, options: ChartOptions<'a>) -> (r: Self)
        requires
            1 <= data@.len() <= 100,
            compare is Some ==> compare->0.data@.len() == data@.len(),
            options.display is Portrait ==> options.display->labels@.len() == data@.len(),
            1 <= options.height <= 8191,
        ensures
            r@.data == data@,
            r@.compare == (match compare {
                Some(c) => Some(c.data@),
                None => None::<Seq<u32>>,
            }),
            r@.height == options.height as nat,
            r@.view == options.view,
            r@.labels == (match options.display {
                DisplayMode::Portrait { labels } => Some(labels_view(labels@)),
                DisplayMode::Compact => None::<Seq<Seq<char>>>,
            }),
            r@.wf(),
    {
        Chart { data, compare, options }
    }

    /// Steps of the primary series, and of the comparison series if there is one.
    pub fn scale_to_steps(&self) -> (r: (Vec<i16>, Option<Vec<i16>>))
        requires
            self@.wf(),
        ensures
            r.0@.len() == self@.data.len(),
            forall|i: int| 0 <= i < self@.data.len() ==> r.0@[i] as int == self@.step(self@.data[i]),
            r.1 is Some <==> self@.compare is Some,
            r.1 is Some ==> r.1->0@.len() == self@.compared().len(),
            r.1 is Some ==> forall|i: int|
                0 <= i < self@.compared().len() ==> r.1->0@[i] as int == self@.step(self@.compared()[i]),
    {
        let mut all: Vec<u32> = Vec::new();
        let mut i: usize = 0;
        while i < self.data.len()
            invariant
                i <= self.data@.len(),
                all@ == self.data@.take(i as int),
            decreases self.data.len() - i,
        {
            all.push(self.data[i]);
            i = i + 1;
            assert(all@ =~= self.data@.take(i as int));
        }
        assert(self.data@.take(self.data@.len() as int) =~= self.data@);
        if let Some(c) = &self.compare {
            let mut j: usize = 0;
            while j < c.data.len()
                invariant
                    j <= c.data@.len(),
                    all@ == self.data@ + c.data@.take(j as int),
                decreases c.data.len() - j,
            {
                all.push(c.data[j]);
                j = j + 1;
                assert(all@ =~= self.data@ + c.data@.take(j as int));
            }
            assert(c.data@.take(c.data@.len() as int) =~= c.data@);
        } else {
            assert(all@ =~= self.data@ + Seq::<u32>::empty());
        }
        assert(all@ == self@.all());
        let scale = Scale::new(&all, self.options.height, self.options.view);
        let steps = map_steps(&scale, self.data, Ghost(self@));
        let cmp_steps = match &self.compare {
            Some(c) => Some(map_steps(&scale, c.data, Ghost(self@))),
            None => None,
        };
        (steps, cmp_steps)
    }
}

impl<'a> Chart<'a> {
    /// The comparison series, or an empty slice.
    fn compared_data(&self) -> (r: &'a [u32])
        ensures
            r@ == self@.compared(),
    {
        match &self.compare {
            Some(c) => c.data,
            None => &[],
        }
    }

    /// Smallest and largest of `vals` whose bar is drawn.
    fn visible_bounds(vals: &[u32], steps: &Vec<i16>, Ghost(c): Ghost<ChartView>) -> (r: (u32, u32))
        requires
            steps@.len() == vals@.len(),
            forall|i: int| 0 <= i < vals@.len() ==> steps@[i] as int == c.step(vals@[i]),
        ensures
            r.0 as int == visible_min(c, vals@, vals@.len() as int),
            r.1 as int == visible_max(c, vals@, vals@.len() as int),
    {
        let mut lo: u32 = u32::MAX;
        let mut hi: u32 = 0;
        let mut i: usize = 0;
        while i < vals.len()
            invariant
                i <= vals@.len(),
                steps@.len() == vals@.len(),
                forall|j: int| 0 <= j < vals@.len() ==> steps@[j] as int == c.step(vals@[j]),
                lo as int == visible_min(c, vals@, i as int),
                hi as int == visible_max(c, vals@, i as int),
            decreases vals.len() - i,
        {
            if steps[i] > 0 {
                if vals[i] < lo {
                    lo = vals[i];
                }
                if vals[i] > hi {
                    hi = vals[i];
                }
            }
            i = i + 1;
        }
        (lo, hi)
    }

    /// Appends bar `i` on line `layer` to `out`.
    fn push_bar(
        &self,
        out: &mut Vec<char>,
        pal: &Palette,
        steps: &Vec<i16>,
        csteps: &Vec<i16>,
        layer: u16,
        i: usize,
    )
        requires
            self@.wf(),
            pal@.len() == 48,
            i < self@.data.len(),
            steps@.len() == self@.data.len(),
            csteps@.len() == self@.compared().len(),
            forall|j: int| 0 <= j < self@.data.len() ==> steps@[j] as int == self@.step(self@.data[j]),
            forall|j: int| 0 <= j < self@.compared().len() ==> csteps@[j] as int == self@.step(self@.compared()[j]),
        ensures
            final(out)@ == old(out)@ + bar_text(self@, pal@, layer as int, i as int),
    {
        let c = Ghost(self@);
        let has_cmp = self.compare.is_some();
        let g = glyph_of(steps[i], layer);
        let pp = if has_cmp || i % 2 == 0 {
            BRIGHT
        } else {
            DIM
        };
        let pri = pal.get(pp, g);
        if has_cmp {
            let cdata = self.compared_data();
            let cp = if cdata[i] <= self.data[i] {
                UNDER
            } else {
                OVER
            };
            let cg = glyph_of(csteps[i], layer);
            push_all(out, pri);
            push_all(out, pal.get(cp, cg));
            out.push(' ');
        } else if self.data.len() <= 10 {
            push_all(out, pri);
        } else {
            push_all(out, pri);
            push_all(out, pri);
        }
        assert(out@ =~= old(out)@ + bar_text(c@, pal@, layer as int, i as int));
    }

    /// Appends line `layer` of the body to `out`.
    fn push_line(
        &self,
        out: &mut Vec<char>,
        pal: &Palette,
        steps: &Vec<i16>,
        csteps: &Vec<i16>,
        layer: u16,
        top: u32,
        bottom: u32,
    )
        requires
            self@.wf(),
            pal@.len() == 48,
            layer < self@.height,
            top as int == top_value(self@),
            bottom as int == bottom_value(self@),
            steps@.len() == self@.data.len(),
            csteps@.len() == self@.compared().len(),
            forall|j: int| 0 <= j < self@.data.len() ==> steps@[j] as int == self@.step(self@.data[j]),
            forall|j: int| 0 <= j < self@.compared().len() ==> csteps@[j] as int == self@.step(self@.compared()[j]),
        ensures
            final(out)@ == old(out)@ + line_text(self@, pal@, layer as int),
    {
        let c = Ghost(self@);
        if layer == self.options.height - 1 {
            push_decimal(out, top as u64);
        } else if layer == 0 {
            let tw = decimal_len(top as u64);
            let bw = decimal_len(bottom as u64);
            if tw > bw {
                push_pad(out, tw - bw);
            }
            push_decimal(out, bottom as u64);
        } else {
            let tw = decimal_len(top as u64);
            push_pad(out, tw);
        }
        out.push('│');
        assert(c@.height == self.options.height as nat);
        assert(out@ =~= old(out)@ + tick_text(c@, layer as int));
        let ghost mid = out@;
        let mut i: usize = 0;
        while i < self.data.len()
            invariant
                self@.wf(),
                pal@.len() == 48,
                i <= self@.data.len(),
                steps@.len() == self@.data.len(),
                csteps@.len() == self@.compared().len(),
                forall|j: int| 0 <= j < self@.data.len() ==> steps@[j] as int == self@.step(self@.data[j]),
                forall|j: int| 0 <= j < self@.compared().len() ==> csteps@[j] as int == self@.step(self@.compared()[j]),
                out@ == mid + bars_text(self@, pal@, layer as int, i as int),
            decreases self.data.len() - i,
        {
            self.push_bar(out, pal, steps, csteps, layer, i);
            i = i + 1;
            assert(out@ =~= mid + bars_text(self@, pal@, layer as int, i as int));
        }
        out.push('\n');
        assert(out@ =~= old(out)@ + line_text(c@, pal@, layer as int));
    }

    /// Appends the legend entry of label `k` to `out`.
    fn push_label(out: &mut Vec<char>, k: u64, label: &str)
        requires
            k < 100,
        ensures
            final(out)@ == old(out)@ + label_cell(k as int, label@),
    {
        let d = decimal_len(k);
        if d < 2 {
            push_pad(out, 2 - d);
        }
        push_decimal(out, k);
        out.push(':');
        out.push(' ');
        let ghost mid = out@;
        let len = label.unicode_len();
        let cut: usize = if len <= 12 {
            len
        } else {
            12
        };
        let mut j: usize = 0;
        while j < cut
            invariant
                j <= cut,
                cut <= label@.len(),
                out@ == mid + label@.take(j as int),
            decreases cut - j,
        {
            out.push(label.get_char(j));
            j = j + 1;
            assert(out@ =~= mid + label@.take(j as int));
        }
        assert(label@.take(cut as int) =~= truncated(label@));
        push_pad(out, 12 - cut as u64);
        out.push(' ');
        assert(out@ =~= old(out)@ + label_cell(k as int, label@));
    }

    /// Appends the legend of `labels` to `out`, for a chart `width` characters wide.
    fn push_legend(&self, out: &mut Vec<char>, labels: &[&str], width: u64)
        requires
            self@.wf(),
            self@.labels == Some(labels_view(labels@)),
            width == chart_width(self@),
            width <= 0x1_0000_0000 + 300,
        ensures
            final(out)@ == old(out)@ + legend_text(self@, legend_rows(self@)),
    {
        let c = Ghost(self@);
        let n = self.data.len() as u64;
        let cols: u64 = if width / 17 < 1 {
            1
        } else {
            width / 17
        };
        let rows: u64 = (n + cols - 1) / cols;
        assert((n as int + cols as int - 1) / (cols as int) <= 100) by (nonlinear_arith)
            requires 1 <= n <= 100, cols >= 1;
        assert(cols == legend_columns(c@) && rows == legend_rows(c@));
        let mut row: u64 = 0;
        while row < rows
            invariant
                self@.wf(),
                c@ == self@,
                self@.labels == Some(labels_view(labels@)),
                n == self@.data.len(),
                cols == legend_columns(c@),
                rows == legend_rows(c@),
                cols <= 0x1_0000_0000,
                rows <= 100,
                row <= rows,
                out@ == old(out)@ + legend_text(c@, row as int),
            decreases rows - row,
        {
            let ghost start = out@;
            let mut col: u64 = 0;
            while col < cols
                invariant
                    self@.wf(),
                    c@ == self@,
                    self@.labels == Some(labels_view(labels@)),
                    n == self@.data.len(),
                    cols == legend_columns(c@),
                    rows == legend_rows(c@),
                    cols <= 0x1_0000_0000,
                    rows <= 100,
                    row < rows,
                    col <= cols,
                    out@ == start + legend_row_cells(c@, row as int, col as int),
                decreases cols - col,
            {
                assert(col * rows + row < 0x1_0000_0000 * 101) by (nonlinear_arith)
                    requires col < cols, cols <= 0x1_0000_0000, rows <= 100, row < rows;
                let k = col * rows + row;
                if k < n {
                    assert(labels_view(labels@)[k as int] == labels@[k as int]@);
                    Self::push_label(out, k, labels[k as usize]);
                } else if col * rows < n {
                    push_pad(out, LEGEND_CELL_WIDTH);
                }
                col = col + 1;
                assert(out@ =~= start + legend_row_cells(c@, row as int, col as int));
            }
            out.push('\n');
            row = row + 1;
            assert(out@ =~= old(out)@ + legend_text(c@, row as int));
        }
    }

    /// The text of the chart, with the glyphs that `pal` gives: the bars line by
    /// line from the top, the row of offsets, and in portrait mode the legend.
    pub fn render_with(&self, pal: &Palette) -> (r: String)
        requires
            self@.wf(),
            pal@.len() == 48,
        ensures
            r@ == chart_text(self@, pal@),
    {
        let c = Ghost(self@);
        let (steps, cmp) = self.scale_to_steps();
        let csteps: Vec<i16> = match cmp {
            Some(v) => v,
            None => Vec::new(),
        };
        let cdata = self.compared_data();
        let (lo1, hi1) = Self::visible_bounds(self.data, &steps, c);
        let (lo2, hi2) = Self::visible_bounds(cdata, &csteps, c);
        let top = if hi1 >= hi2 {
            hi1
        } else {
            hi2
        };
        let m = if lo1 <= lo2 {
            lo1
        } else {
            lo2
        };
        let bottom = if m > top {
            top
        } else {
            m
        };
        let mut out: Vec<char> = Vec::new();
        let h = self.options.height;
        let mut r: u16 = 0;
        while r < h
            invariant
                self@.wf(),
                c@ == self@,
                h as nat == self@.height,
                pal@.len() == 48,
                r <= h,
                top as int == top_value(self@),
                bottom as int == bottom_value(self@),
                steps@.len() == self@.data.len(),
                csteps@.len() == self@.compared().len(),
                forall|j: int| 0 <= j < self@.data.len() ==> steps@[j] as int == self@.step(self@.data[j]),
                forall|j: int|
                    0 <= j < self@.compared().len() ==> csteps@[j] as int == self@.step(self@.compared()[j]),
                out@ == body_text(self@, pal@, r as int),
            decreases h - r,
        {
            self.push_line(&mut out, pal, &steps, &csteps, h - 1 - r, top, bottom);
            r = r + 1;
        }
        let ghost body = out@;
        let tw = decimal_len(top as u64);
        proof {
            lemma_decimal_len(top as nat);
        }
        push_pad(&mut out, tw);
        out.push(' ');
        let ghost mid = out@;
        let n = self.data.len();
        let ow: u64 = if self.compare.is_some() {
            3
        } else if n <= 10 {
            1
        } else {
            2
        };
        let mut width: u64 = tw;
        let mut i: usize = 0;
        while i < n
            invariant
                self@.wf(),
                c@ == self@,
                n == self@.data.len(),
                ow == offset_width(c@),
                tw == tick_width(c@),
                tw <= 0x1_0000_0000,
                i <= n,
                out@ == mid + offsets_text(c@, i as int),
                width == tw + offsets_text(c@, i as int).len(),
                width <= tw + 3 * i,
            decreases n - i,
        {
            push_decimal(&mut out, i as u64);
            let dl = decimal_len(i as u64);
            proof {
                lemma_decimal_len(i as nat);
            }
            if ow > dl {
                push_pad(&mut out, ow - dl);
                width = width + ow;
            } else {
                width = width + dl;
            }
            i = i + 1;
            assert(out@ =~= mid + offsets_text(c@, i as int));
        }
        out.push('\n');
        assert(out@ =~= body + offset_row(c@));
        if let DisplayMode::Portrait { labels } = &self.options.display {
            self.push_legend(&mut out, labels, width);
        }
        assert(out@ =~= chart_text(c@, pal@));
        text_of(&out)
    }

    /// The text of the chart, in the colors that the environment allows.
    pub fn render(&self) -> (r: String)
        requires
            self@.wf(),
        ensures
            exists|pal: Seq<Seq<char>>| is_painted(pal) && r@ == chart_text(self@, pal),
    {
        let pal = Palette::colored();
        self.render_with(&pal)
    }
}

/// The steps of `values` under `scale`.
fn map_steps(scale: &Scale, values: &[u32], Ghost(chart): Ghost<ChartView>) -> (r: Vec<i16>)
    requires
        chart.wf(),
        *scale == Scale::of(chart.height, chart.view, chart.all()),
    ensures
        r@.len() == values@.len(),
        forall|i: int| 0 <= i < values@.len() ==> r@[i] as int == chart.step(values@[i]),
{
    let mut r: Vec<i16> = Vec::new();
    let mut i: usize = 0;
    while i < values.len()
        invariant
            i <= values@.len(),
            chart.wf(),
            *scale == Scale::of(chart.height, chart.view, chart.all()),
            r@.len() == i,
            forall|k: int| 0 <= k < i ==> r@[k] as int == chart.step(values@[k]),
        decreases values.len() - i,
    {
        let s = scale.to_step(values[i]);
        r.push(s);
        i = i + 1;
    }
    r
}

} // verus!
