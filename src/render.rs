//! The text of a chart, as a function of the chart's view and of a palette.
use vstd::prelude::*;

use crate::chart::ChartView;
use crate::palette::{is_painted, shows_painted};
use vstd::arithmetic::div_mod::{
    lemma_fundamental_div_mod, lemma_fundamental_div_mod_converse, lemma_mod_pos_bound,
    lemma_multiply_divide_lt,
};

verus! {

/// Number of glyphs that bars are drawn with.
pub const GLYPH_COUNT: usize = 12;

/// Number of paints: bright white, white, green ("under"), red ("over").
pub const PAINT_COUNT: usize = 4;

/// Glyph `g`: blank, seven partial blocks, the full block, the "hidden" arrow,
/// the "excluded" arrow and the zero mark.
pub open spec fn glyph(g: int) -> char {
    if g == 0 {
        ' '
    } else if g == 1 {
        '▁'
    } else if g == 2 {
        '▂'
    } else if g == 3 {
        '▃'
    } else if g == 4 {
        '▄'
    } else if g == 5 {
        '▅'
    } else if g == 6 {
        '▆'
    } else if g == 7 {
        '▇'
    } else if g == 8 {
        '█'
    } else if g == 9 {
        '🢃'
    } else if g == 10 {
        '🢁'
    } else {
        '⨯'
    }
}

/// The glyph index of a bar of `st` steps on line `layer` (0 is the bottom line),
/// which covers the steps `(8 * layer, 8 * layer + 8]`.
pub open spec fn glyph_index(st: int, layer: int) -> int {
    if st == 0 && layer == 0 {
        11
    } else if st == -1 && layer == 0 {
        9
    } else if st == -2 {
        10
    } else if st <= 8 * layer {
        0
    } else if st > 8 * layer + 8 {
        8
    } else {
        st - 8 * layer
    }
}

/// Paint of bright white.
pub const BRIGHT: usize = 0;

/// Paint of white.
pub const DIM: usize = 1;

/// Paint of a comparison value no larger than its primary value.
pub const UNDER: usize = 2;

/// Paint of a comparison value larger than its primary value.
pub const OVER: usize = 3;

/// The text of glyph `g` in paint `p`, as the palette gives it.
pub open spec fn cell(pal: Seq<Seq<char>>, p: int, g: int) -> Seq<char> {
    pal[p * 12 + g]
}

/// Spaces, `n` of them; none when `n` is not positive.
pub open spec fn pad(n: int) -> Seq<char> {
    if n <= 0 {
        Seq::empty()
    } else {
        Seq::new(n as nat, |_i: int| ' ')
    }
}

/// A decimal digit.
pub open spec fn digit(d: nat) -> char {
    if d == 0 {
        '0'
    } else if d == 1 {
        '1'
    } else if d == 2 {
        '2'
    } else if d == 3 {
        '3'
    } else if d == 4 {
        '4'
    } else if d == 5 {
        '5'
    } else if d == 6 {
        '6'
    } else if d == 7 {
        '7'
    } else if d == 8 {
        '8'
    } else {
        '9'
    }
}

/// The decimal digits of `n`.
pub open spec fn decimal(n: nat) -> Seq<char>
    decreases n,
{
    if n < 10 {
        seq![digit(n)]
    } else {
        decimal(n / 10) + seq![digit(n % 10)]
    }
}

/// Characters that a bar is wide without a comparison series.
pub open spec fn bar_width(c: ChartView) -> int {
    if c.data.len() <= 10 {
        1
    } else {
        2
    }
}

/// Characters between offsets in the offset row.
pub open spec fn offset_width(c: ChartView) -> int {
    if c.compare is Some {
        3
    } else {
        bar_width(c)
    }
}

/// Paint of the comparison bar `i`: "under" when its value is at most the primary one.
pub open spec fn compare_paint(c: ChartView, i: int) -> int {
    if c.compared()[i] <= c.data[i] {
        UNDER as int
    } else {
        OVER as int
    }
}

/// Paint of the primary bar `i`: alternating shades without a comparison series.
pub open spec fn primary_paint(c: ChartView, i: int) -> int {
    if c.compare is Some || i % 2 == 0 {
        BRIGHT as int
    } else {
        DIM as int
    }
}

/// Text of bar `i` on line `layer`.
pub open spec fn bar_text(c: ChartView, pal: Seq<Seq<char>>, layer: int, i: int) -> Seq<char> {
    let pri = cell(pal, primary_paint(c, i), glyph_index(c.step(c.data[i]), layer));
    if c.compare is Some {
        pri + cell(pal, compare_paint(c, i), glyph_index(c.step(c.compared()[i]), layer)) + seq![' ']
    } else if bar_width(c) == 1 {
        pri
    } else {
        pri + pri
    }
}

/// Text of the first `k` bars on line `layer`.
pub open spec fn bars_text(c: ChartView, pal: Seq<Seq<char>>, layer: int, k: int) -> Seq<char>
    decreases k,
{
    if k <= 0 {
        Seq::empty()
    } else {
        bars_text(c, pal, layer, k - 1) + bar_text(c, pal, layer, k - 1)
    }
}

/// Largest value among the first `k` of `vals` whose bar is drawn (a positive step); 0 if none.
pub open spec fn visible_max(c: ChartView, vals: Seq<u32>, k: int) -> int
    decreases k,
{
    if k <= 0 {
        0
    } else {
        let r = visible_max(c, vals, k - 1);
        if c.step(vals[k - 1]) > 0 && vals[k - 1] as int > r {
            vals[k - 1] as int
        } else {
            r
        }
    }
}

/// Smallest value among the first `k` of `vals` whose bar is drawn; `u32::MAX` if none.
pub open spec fn visible_min(c: ChartView, vals: Seq<u32>, k: int) -> int
    decreases k,
{
    if k <= 0 {
        u32::MAX as int
    } else {
        let r = visible_min(c, vals, k - 1);
        if c.step(vals[k - 1]) > 0 && (vals[k - 1] as int) < r {
            vals[k - 1] as int
        } else {
            r
        }
    }
}

/// The largest value drawn, over both series; 0 if none is drawn.
pub open spec fn top_value(c: ChartView) -> int {
    let a = visible_max(c, c.data, c.data.len() as int);
    let b = visible_max(c, c.compared(), c.compared().len() as int);
    if a >= b {
        a
    } else {
        b
    }
}

/// The smallest value drawn, over both series; that of `top_value` if none is drawn.
pub open spec fn bottom_value(c: ChartView) -> int {
    let a = visible_min(c, c.data, c.data.len() as int);
    let b = visible_min(c, c.compared(), c.compared().len() as int);
    let m = if a <= b {
        a
    } else {
        b
    };
    if m > top_value(c) {
        top_value(c)
    } else {
        m
    }
}

/// Width of the tick column: the digits of the top value.
pub open spec fn tick_width(c: ChartView) -> int {
    decimal(top_value(c) as nat).len() as int
}

/// The tick column of line `layer`, with its axis.
pub open spec fn tick_text(c: ChartView, layer: int) -> Seq<char> {
    if layer == c.height - 1 {
        decimal(top_value(c) as nat) + seq!['│']
    } else if layer == 0 {
        let b = decimal(bottom_value(c) as nat);
        pad(tick_width(c) - b.len()) + b + seq!['│']
    } else {
        pad(tick_width(c)) + seq!['│']
    }
}

/// Line `layer` of the chart body.
pub open spec fn line_text(c: ChartView, pal: Seq<Seq<char>>, layer: int) -> Seq<char> {
    tick_text(c, layer) + bars_text(c, pal, layer, c.data.len() as int) + seq!['\n']
}

/// The first `k` lines of the body, from the top line down.
pub open spec fn body_text(c: ChartView, pal: Seq<Seq<char>>, k: int) -> Seq<char>
    decreases k,
{
    if k <= 0 {
        Seq::empty()
    } else {
        body_text(c, pal, k - 1) + line_text(c, pal, c.height - k)
    }
}

/// The cell of offset `i` in the offset row.
pub open spec fn offset_cell(c: ChartView, i: int) -> Seq<char> {
    decimal(i as nat) + pad(offset_width(c) - decimal(i as nat).len())
}

/// The cells of the first `k` offsets.
pub open spec fn offsets_text(c: ChartView, k: int) -> Seq<char>
    decreases k,
{
    if k <= 0 {
        Seq::empty()
    } else {
        offsets_text(c, k - 1) + offset_cell(c, k - 1)
    }
}

/// The row of offsets below the bars.
pub open spec fn offset_row(c: ChartView) -> Seq<char> {
    pad(tick_width(c)) + seq![' '] + offsets_text(c, c.data.len() as int) + seq!['\n']
}

/// Width of the chart that the legend fills: the tick column and the offsets.
pub open spec fn chart_width(c: ChartView) -> int {
    tick_width(c) + offsets_text(c, c.data.len() as int).len()
}

/// Columns of the legend: one for each 17 characters of width, at least one.
pub open spec fn legend_columns(c: ChartView) -> int {
    if chart_width(c) / 17 < 1 {
        1
    } else {
        chart_width(c) / 17
    }
}

/// Labels in each column of the legend.
pub open spec fn legend_rows(c: ChartView) -> int {
    let n = c.data.len() as int;
    let cols = legend_columns(c);
    (n + cols - 1) / cols
}

/// A label cut to 12 characters.
pub open spec fn truncated(l: Seq<char>) -> Seq<char> {
    if l.len() <= 12 {
        l
    } else {
        l.take(12)
    }
}

/// The legend entry of label `k`: its index right-aligned in two characters,
/// then the label cut and padded to 12 characters.
pub open spec fn label_cell(k: int, l: Seq<char>) -> Seq<char> {
    let d = decimal(k as nat);
    pad(2 - d.len()) + d + seq![':', ' '] + truncated(l) + pad(12 - truncated(l).len()) + seq![' ']
}

/// Characters of each cell of the legend.
pub const LEGEND_CELL_WIDTH: u64 = 17;

/// The entries of row `row` of the legend, in its first `col` columns; a column
/// that has no entry for this row gives a blank cell.
pub open spec fn legend_row_cells(c: ChartView, row: int, col: int) -> Seq<char>
    decreases col,
{
    if col <= 0 {
        Seq::empty()
    } else {
        let k = (col - 1) * legend_rows(c) + row;
        let rest = legend_row_cells(c, row, col - 1);
        if k < c.data.len() {
            rest + label_cell(k, c.labels->0[k])
        } else if (col - 1) * legend_rows(c) < c.data.len() {
            rest + pad(LEGEND_CELL_WIDTH as int)
        } else {
            rest
        }
    }
}

/// The first `k` rows of the legend.
pub open spec fn legend_text(c: ChartView, k: int) -> Seq<char>
    decreases k,
{
    if k <= 0 {
        Seq::empty()
    } else {
        legend_text(c, k - 1) + legend_row_cells(c, k - 1, legend_columns(c)) + seq!['\n']
    }
}

/// The whole legend: empty in compact mode.
pub open spec fn legend(c: ChartView) -> Seq<char> {
    if c.labels is Some {
        legend_text(c, legend_rows(c))
    } else {
        Seq::empty()
    }
}

/// The text of the chart, drawn with the glyphs of `pal`.
pub open spec fn chart_text(c: ChartView, pal: Seq<Seq<char>>) -> Seq<char> {
    body_text(c, pal, c.height as int) + offset_row(c) + legend(c)
}

/// The digits of a number are at least one and, below 100, at most two.
pub proof fn lemma_decimal_len(n: nat)
    ensures
        1 <= decimal(n).len() <= n + 1,
        n < 100 ==> decimal(n).len() <= 2,
    decreases n,
{
    if n >= 10 {
        lemma_decimal_len(n / 10);
    }
}

/// A zero measurement is drawn with the zero mark on the bottom line, never blank.
pub proof fn lemma_zero_drawn(c: ChartView)
    ensures
        glyph_index(c.step(0), 0) == 11,
        glyph(glyph_index(c.step(0), 0)) == '⨯',
        glyph(glyph_index(c.step(0), 0)) != glyph(0),
{
}

/// In a chart with a comparison series, bar `i` is the primary glyph in bright
/// white, then the comparison glyph painted "under" when the comparison value is
/// at most the primary value and "over" otherwise, then a space.
pub proof fn lemma_comparison_paint(c: ChartView, pal: Seq<Seq<char>>, layer: int, i: int)
    requires
        c.compare is Some,
        0 <= i < c.data.len(),
    ensures
        bar_text(c, pal, layer, i) == cell(pal, BRIGHT as int, glyph_index(c.step(c.data[i]), layer))
            + cell(
            pal,
            if c.compared()[i] <= c.data[i] {
                UNDER as int
            } else {
                OVER as int
            },
            glyph_index(c.step(c.compared()[i]), layer),
        ) + seq![' '],
{
}

/// Number of line ends in `s`.
pub open spec fn newlines(s: Seq<char>) -> nat
    decreases s.len(),
{
    if s.len() == 0 {
        0
    } else {
        newlines(s.drop_last()) + if s.last() == '\n' {
            1nat
        } else {
            0nat
        }
    }
}

proof fn lemma_newlines_concat(a: Seq<char>, b: Seq<char>)
    ensures
        newlines(a + b) == newlines(a) + newlines(b),
    decreases b.len(),
{
    if b.len() > 0 {
        assert((a + b).drop_last() =~= a + b.drop_last());
        lemma_newlines_concat(a, b.drop_last());
    } else {
        assert(a + b =~= a);
    }
}

proof fn lemma_no_newline(s: Seq<char>)
    requires
        forall|i: int| 0 <= i < s.len() ==> s[i] != '\n',
    ensures
        newlines(s) == 0,
    decreases s.len(),
{
    if s.len() > 0 {
        lemma_no_newline(s.drop_last());
    }
}

proof fn lemma_decimal_no_newline(n: nat)
    ensures
        newlines(decimal(n)) == 0,
    decreases n,
{
    if n >= 10 {
        lemma_decimal_no_newline(n / 10);
        lemma_newlines_concat(decimal(n / 10), seq![digit(n % 10)]);
        lemma_no_newline(seq![digit(n % 10)]);
    } else {
        lemma_no_newline(decimal(n));
    }
}

proof fn lemma_pad_no_newline(n: int)
    ensures
        newlines(pad(n)) == 0,
{
    lemma_no_newline(pad(n));
}

proof fn lemma_cell_no_newline(pal: Seq<Seq<char>>, p: int, g: int)
    requires
        is_painted(pal),
        0 <= p < 4,
        0 <= g < 12,
    ensures
        newlines(cell(pal, p, g)) == 0,
{
    assert(shows_painted(cell(pal, p, g), p, glyph(g)));
    lemma_no_newline(cell(pal, p, g));
}

proof fn lemma_glyph_index_range(st: int, layer: int)
    ensures
        0 <= glyph_index(st, layer) < 12,
{
}

proof fn lemma_bars_no_newline(c: ChartView, pal: Seq<Seq<char>>, layer: int, k: int)
    requires
        c.wf(),
        is_painted(pal),
        k <= c.data.len(),
    ensures
        newlines(bars_text(c, pal, layer, k)) == 0,
    decreases k,
{
    if k > 0 {
        let i = k - 1;
        lemma_bars_no_newline(c, pal, layer, k - 1);
        let gp = glyph_index(c.step(c.data[i]), layer);
        let pri = cell(pal, primary_paint(c, i), gp);
        lemma_glyph_index_range(c.step(c.data[i]), layer);
        lemma_cell_no_newline(pal, primary_paint(c, i), gp);
        if c.compare is Some {
            let gc = glyph_index(c.step(c.compared()[i]), layer);
            lemma_glyph_index_range(c.step(c.compared()[i]), layer);
            lemma_cell_no_newline(pal, compare_paint(c, i), gc);
            let cmp = cell(pal, compare_paint(c, i), gc);
            lemma_newlines_concat(pri, cmp);
            lemma_newlines_concat(pri + cmp, seq![' ']);
            lemma_no_newline(seq![' ']);
        } else {
            lemma_newlines_concat(pri, pri);
        }
        lemma_newlines_concat(bars_text(c, pal, layer, k - 1), bar_text(c, pal, layer, i));
    }
}

proof fn lemma_line_newlines(c: ChartView, pal: Seq<Seq<char>>, layer: int)
    requires
        c.wf(),
        is_painted(pal),
    ensures
        newlines(line_text(c, pal, layer)) == 1,
{
    let t = tick_text(c, layer);
    let bar = seq!['│'];
    lemma_no_newline(bar);
    lemma_decimal_no_newline(top_value(c) as nat);
    lemma_decimal_no_newline(bottom_value(c) as nat);
    let b = decimal(bottom_value(c) as nat);
    lemma_pad_no_newline(tick_width(c) - b.len());
    lemma_pad_no_newline(tick_width(c));
    lemma_newlines_concat(decimal(top_value(c) as nat), bar);
    lemma_newlines_concat(pad(tick_width(c) - b.len()), b);
    lemma_newlines_concat(pad(tick_width(c) - b.len()) + b, bar);
    lemma_newlines_concat(pad(tick_width(c)), bar);
    assert(newlines(t) == 0);
    let bars = bars_text(c, pal, layer, c.data.len() as int);
    lemma_bars_no_newline(c, pal, layer, c.data.len() as int);
    lemma_newlines_concat(t, bars);
    lemma_newlines_concat(t + bars, seq!['\n']);
    assert(seq!['\n'].drop_last() =~= Seq::<char>::empty());
    assert(newlines(Seq::<char>::empty()) == 0);
    assert(newlines(seq!['\n']) == 1);
}

proof fn lemma_body_newlines(c: ChartView, pal: Seq<Seq<char>>, k: int)
    requires
        c.wf(),
        is_painted(pal),
        k >= 0,
    ensures
        newlines(body_text(c, pal, k)) == k,
    decreases k,
{
    if k > 0 {
        lemma_body_newlines(c, pal, k - 1);
        lemma_line_newlines(c, pal, c.height - k);
        lemma_newlines_concat(body_text(c, pal, k - 1), line_text(c, pal, c.height - k));
    }
}

proof fn lemma_offsets_no_newline(c: ChartView, k: int)
    ensures
        newlines(offsets_text(c, k)) == 0,
    decreases k,
{
    if k > 0 {
        lemma_offsets_no_newline(c, k - 1);
        let d = decimal((k - 1) as nat);
        lemma_decimal_no_newline((k - 1) as nat);
        lemma_pad_no_newline(offset_width(c) - d.len());
        lemma_newlines_concat(d, pad(offset_width(c) - d.len()));
        lemma_newlines_concat(offsets_text(c, k - 1), offset_cell(c, k - 1));
    }
}

/// Before its legend, the text of a chart drawn with a painted palette is
/// `height + 1` lines: the lines of the body and the row of offsets.
pub proof fn lemma_line_count(c: ChartView, pal: Seq<Seq<char>>)
    requires
        c.wf(),
        is_painted(pal),
    ensures
        chart_text(c, pal) == body_text(c, pal, c.height as int) + offset_row(c) + legend(c),
        newlines(body_text(c, pal, c.height as int) + offset_row(c)) == c.height + 1,
        (body_text(c, pal, c.height as int) + offset_row(c)).last() == '\n',
{
    lemma_body_newlines(c, pal, c.height as int);
    let sp = pad(tick_width(c)) + seq![' '];
    lemma_pad_no_newline(tick_width(c));
    lemma_no_newline(seq![' ']);
    lemma_newlines_concat(pad(tick_width(c)), seq![' ']);
    let offs = offsets_text(c, c.data.len() as int);
    lemma_offsets_no_newline(c, c.data.len() as int);
    lemma_newlines_concat(sp, offs);
    lemma_newlines_concat(sp + offs, seq!['\n']);
    assert(seq!['\n'].drop_last() =~= Seq::<char>::empty());
    assert(newlines(Seq::<char>::empty()) == 0);
    assert(newlines(seq!['\n']) == 1);
    lemma_newlines_concat(body_text(c, pal, c.height as int), offset_row(c));
}

/// The legend has one entry for each label: each index below the number of
/// labels stands at exactly one place of the legend's grid of rows and columns,
/// and its entry shows at most 12 characters of the label, from its start.
pub proof fn lemma_legend_entries(c: ChartView, k: int)
    requires
        c.wf(),
        c.labels is Some,
        0 <= k < c.data.len(),
    ensures
        ({
            let rows = legend_rows(c);
            let cols = legend_columns(c);
            &&& 0 <= k % rows < rows
            &&& 0 <= k / rows < cols
            &&& (k / rows) * rows + k % rows == k
            &&& forall|row: int, col: int|
                0 <= row < rows && 0 <= col < cols && #[trigger] (col * rows + row) == k ==> row == k % rows
                    && col == k / rows
        }),
        truncated(c.labels->0[k]).len() <= 12,
        truncated(c.labels->0[k]) =~= c.labels->0[k].take(truncated(c.labels->0[k]).len() as int),
{
    let n = c.data.len() as int;
    let cols = legend_columns(c);
    let rows = legend_rows(c);
    assert(rows >= 1 && rows * cols >= n) by (nonlinear_arith)
        requires rows == (n + cols - 1) / cols, cols >= 1, n >= 1;
    lemma_mod_pos_bound(k, rows);
    lemma_fundamental_div_mod(k, rows);
    lemma_multiply_divide_lt(k, rows, cols);
    assert((k / rows) * rows + k % rows == k) by (nonlinear_arith)
        requires k == rows * (k / rows) + (k % rows);
    assert forall|row: int, col: int|
        0 <= row < rows && 0 <= col < cols && #[trigger] (col * rows + row) == k implies row == k % rows
            && col == k / rows by {
        lemma_fundamental_div_mod_converse(k, rows, col, row);
    }
}

/// Relies on std's `FromIterator<char>` for `String`: the characters in order.
#[verifier::external_body]
pub(crate) fn text_of(v: &Vec<char>) -> (r: String)
    ensures
        r@ == v@,
{
    v.iter().collect()
}

/// Appends `s` to `out`.
pub fn push_all(out: &mut Vec<char>, s: &Vec<char>)
    ensures
        final(out)@ == old(out)@ + s@,
{
    let mut i: usize = 0;
    while i < s.len()
        invariant
            i <= s@.len(),
            out@ == old(out)@ + s@.take(i as int),
        decreases s.len() - i,
    {
        out.push(s[i]);
        i = i + 1;
        assert(out@ =~= old(out)@ + s@.take(i as int));
    }
    assert(s@.take(s@.len() as int) =~= s@);
}

/// Appends `n` spaces to `out`.
pub fn push_pad(out: &mut Vec<char>, n: u64)
    ensures
        final(out)@ == old(out)@ + pad(n as int),
{
    let mut i: u64 = 0;
    while i < n
        invariant
            i <= n,
            out@ == old(out)@ + pad(i as int),
        decreases n - i,
    {
        out.push(' ');
        i = i + 1;
        assert(out@ =~= old(out)@ + pad(i as int));
    }
}

/// Decimal digit `d`.
fn digit_char(d: u64) -> (r: char)
    requires
        d < 10,
    ensures
        r == digit(d as nat),
{
    if d == 0 {
        '0'
    } else if d == 1 {
        '1'
    } else if d == 2 {
        '2'
    } else if d == 3 {
        '3'
    } else if d == 4 {
        '4'
    } else if d == 5 {
        '5'
    } else if d == 6 {
        '6'
    } else if d == 7 {
        '7'
    } else if d == 8 {
        '8'
    } else {
        '9'
    }
}

/// Appends the decimal digits of `n` to `out`.
pub fn push_decimal(out: &mut Vec<char>, n: u64)
    ensures
        final(out)@ == old(out)@ + decimal(n as nat),
    decreases n,
{
    if n >= 10 {
        push_decimal(out, n / 10);
    }
    out.push(digit_char(n % 10));
    assert(out@ =~= old(out)@ + decimal(n as nat));
}

/// Number of decimal digits of `n`.
pub fn decimal_len(n: u64) -> (r: u64)
    ensures
        r == decimal(n as nat).len(),
{
    let mut t: Vec<char> = Vec::new();
    push_decimal(&mut t, n);
    assert(t@ =~= decimal(n as nat));
    proof {
        lemma_decimal_len(n as nat);
    }
    t.len() as u64
}

/// The glyph index of a bar of `st` steps on line `layer`.
pub fn glyph_of(st: i16, layer: u16) -> (r: usize)
    ensures
        r == glyph_index(st as int, layer as int),
        r < 12,
{
    let start: i32 = layer as i32 * 8;
    let s: i32 = st as i32;
    if s == 0 && layer == 0 {
        11
    } else if s == -1 && layer == 0 {
        9
    } else if s == -2 {
        10
    } else if s <= start {
        0
    } else if s > start + 8 {
        8
    } else {
        (s - start) as usize
    }
}

} // verus!
