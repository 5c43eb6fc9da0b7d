//! Glyphs in each paint: the terminal colors of the bars.
use vstd::prelude::*;

use colored::Colorize;

use crate::render::{cell, glyph, BRIGHT, DIM, GLYPH_COUNT, OVER, PAINT_COUNT, UNDER};

verus! {

/// The escape that resets the terminal's colors.
pub open spec fn reset() -> Seq<char> {
    seq!['\u{1b}', '[', '0', 'm']
}

/// The escape that selects the foreground color of paint `p`.
pub open spec fn color_escape(p: int) -> Seq<char> {
    if p == BRIGHT as int {
        seq!['\u{1b}', '[', '9', '7', 'm']
    } else if p == DIM as int {
        seq!['\u{1b}', '[', '3', '7', 'm']
    } else if p == UNDER as int {
        seq!['\u{1b}', '[', '9', '2', 'm']
    } else {
        seq!['\u{1b}', '[', '9', '1', 'm']
    }
}

/// `out` shows glyph `c` in paint `p`: in color, or plain where the terminal takes none.
pub open spec fn shows_painted(out: Seq<char>, p: int, c: char) -> bool {
    out == seq![c] || out == color_escape(p) + seq![c] + reset()
}

/// Every glyph of `pal` is plain.
pub open spec fn is_plain(pal: Seq<Seq<char>>) -> bool {
    &&& pal.len() == 48
    &&& forall|p: int, g: int| 0 <= p < 4 && 0 <= g < 12 ==> #[trigger] cell(pal, p, g) == seq![glyph(g)]
}

/// Every glyph of `pal` is shown in its paint, in color or plain.
pub open spec fn is_painted(pal: Seq<Seq<char>>) -> bool {
    &&& pal.len() == 48
    &&& forall|p: int, g: int|
        0 <= p < 4 && 0 <= g < 12 ==> shows_painted(#[trigger] cell(pal, p, g), p, glyph(g))
}

/// Relies on colored's `Colorize::bright_white` and the `Display` of `ColoredString`:
/// the character alone, or set between the escape of bright white and the reset,
/// as the environment allows colors.
#[verifier::external_body]
fn bright_white(c: char) -> (r: String)
    ensures
        shows_painted(r@, BRIGHT as int, c),
{
    c.to_string().bright_white().to_string()
}

/// Relies on colored's `Colorize::white` and the `Display` of `ColoredString`:
/// the character alone, or set between the escape of white and the reset.
#[verifier::external_body]
fn white(c: char) -> (r: String)
    ensures
        shows_painted(r@, DIM as int, c),
{
    c.to_string().white().to_string()
}

/// Relies on colored's `Colorize::bright_green` and the `Display` of `ColoredString`:
/// the character alone, or set between the escape of bright green and the reset.
#[verifier::external_body]
fn bright_green(c: char) -> (r: String)
    ensures
        shows_painted(r@, UNDER as int, c),
{
    c.to_string().bright_green().to_string()
}

/// Relies on colored's `Colorize::bright_red` and the `Display` of `ColoredString`:
/// the character alone, or set between the escape of bright red and the reset.
#[verifier::external_body]
fn bright_red(c: char) -> (r: String)
    ensures
        shows_painted(r@, OVER as int, c),
{
    c.to_string().bright_red().to_string()
}

/// Glyph `g`.
pub fn glyph_char(g: usize) -> (r: char)
    ensures
        r == glyph(g as int),
{
    if g == 0 {
        ' '
    } else if g == 1 {
        '▁'
    } else if g == 2 {
        '▂'
    } else if g == 3 {
        '▃'
    } else if g == 4 {
        '▄'
    } else if g == 5 {
        '▅'
    } else if g == 6 {
        '▆'
    } else if g == 7 {
        '▇'
    } else if g == 8 {
        '█'
    } else if g == 9 {
        '🢃'
    } else if g == 10 {
        '🢁'
    } else {
        '⨯'
    }
}

/// The characters of `s`.
fn chars_of(s: &String) -> (r: Vec<char>)
    ensures
        r@ == s@,
{
    let t = s.as_str();
    let n = t.unicode_len();
    let mut r: Vec<char> = Vec::new();
    let mut i: usize = 0;
    while i < n
        invariant
            n == t@.len(),
            t@ == s@,
            i <= n,
            r@ == t@.take(i as int),
        decreases n - i,
    {
        r.push(t.get_char(i));
        i = i + 1;
        assert(r@ =~= t@.take(i as int));
    }
    assert(t@.take(n as int) =~= t@);
    r
}

/// The text of each glyph in each paint, indexed by `12 * paint + glyph`.
pub struct Palette {
    cells: Vec<Vec<char>>,
}

impl View for Palette {
    type V = Seq<Seq<char>>;

    closed spec fn view(&self) -> Seq<Seq<char>> {
        self.cells@.map_values(|v: Vec<char>| v@)
    }
}

impl Palette {
    /// Glyphs without color.
    pub fn plain() -> (r: Palette)
        ensures
            is_plain(r@),
    {
        let mut cells: Vec<Vec<char>> = Vec::new();
        let mut k: usize = 0;
        while k < PAINT_COUNT * GLYPH_COUNT
            invariant
                k <= 48,
                cells@.len() == k,
                forall|j: int| 0 <= j < k ==> (#[trigger] cells@[j])@ == seq![glyph(j % 12)],
            decreases 48 - k,
        {
            let c = glyph_char(k % GLYPH_COUNT);
            cells.push(vec![c]);
            k = k + 1;
        }
        let r = Palette { cells };
        assert forall|p: int, g: int| 0 <= p < 4 && 0 <= g < 12 implies #[trigger] cell(r@, p, g) == seq![glyph(g)] by {
            assert((p * 12 + g) % 12 == g) by (nonlinear_arith)
                requires 0 <= g < 12, 0 <= p;
            assert(p * 12 + g < 48) by (nonlinear_arith)
                requires 0 <= g < 12, 0 <= p < 4;
        }
        r
    }

    /// Glyphs in the colors that colored gives them, where the environment allows colors.
    pub fn colored() -> (r: Palette)
        ensures
            is_painted(r@),
    {
        let mut cells: Vec<Vec<char>> = Vec::new();
        let mut k: usize = 0;
        while k < PAINT_COUNT * GLYPH_COUNT
            invariant
                k <= 48,
                cells@.len() == k,
                forall|j: int| 0 <= j < k ==> shows_painted((#[trigger] cells@[j])@, j / 12, glyph(j % 12)),
            decreases 48 - k,
        {
            let c = glyph_char(k % GLYPH_COUNT);
            let p = k / GLYPH_COUNT;
            let s = if p == BRIGHT {
                bright_white(c)
            } else if p == DIM {
                white(c)
            } else if p == UNDER {
                bright_green(c)
            } else {
                bright_red(c)
            };
            cells.push(chars_of(&s));
            k = k + 1;
        }
        let r = Palette { cells };
        assert forall|p: int, g: int| 0 <= p < 4 && 0 <= g < 12 implies shows_painted(#[trigger] cell(r@, p, g), p, glyph(g)) by {
            assert((p * 12 + g) % 12 == g) by (nonlinear_arith)
                requires 0 <= g < 12, 0 <= p;
            assert((p * 12 + g) / 12 == p) by (nonlinear_arith)
                requires 0 <= g < 12, 0 <= p;
            assert(p * 12 + g < 48) by (nonlinear_arith)
                requires 0 <= g < 12, 0 <= p < 4;
        }
        r
    }

    /// The text of glyph `g` in paint `p`.
    pub fn get(&self, p: usize, g: usize) -> (r: &Vec<char>)
        requires
            self@.len() == 48,
            p < 4,
            g < 12,
        ensures
            r@ == cell(self@, p as int, g as int),
    {
        assert(p * 12 + g < 48) by (nonlinear_arith)
            requires g < 12, p < 4;
        &self.cells[p * GLYPH_COUNT + g]
    }
}

} // verus!
