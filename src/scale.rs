//! Mapping of measurements to steps: eighths of a line of text.
use vstd::prelude::*;

use crate::params::ViewPreference;

verus! {

/// Largest value that a step can take.
pub const STEP_LIMIT: i16 = 32767;

/// Number of steps that `height` lines can show.
pub open spec fn max_steps(height: nat) -> int {
    (8 * height) as int
}

/// Largest value of `s`; 0 when `s` is empty.
pub open spec fn seq_max(s: Seq<u32>) -> int
    decreases s.len(),
{
    if s.len() == 0 {
        0
    } else {
        let r = seq_max(s.drop_last());
        if s.last() as int > r {
            s.last() as int
        } else {
            r
        }
    }
}

/// Steps given to one unit of measurement before any fitting: at least 1.
pub open spec fn unit_steps(height: nat, all: Seq<u32>) -> int {
    let top = seq_max(all);
    if top == 0 || max_steps(height) / top < 1 {
        1
    } else {
        max_steps(height) / top
    }
}

/// A nonzero measurement that does not fit the chart at the base unit.
pub open spec fn is_excessive(m: u32, unit: int, ms: int) -> bool {
    m > 0 && (m > u16::MAX || m as int * unit > ms)
}

/// Largest nonzero measurement of `s` that is not excessive; 0 if none.
pub open spec fn low_max(s: Seq<u32>, unit: int, ms: int) -> int
    decreases s.len(),
{
    if s.len() == 0 {
        0
    } else {
        let r = low_max(s.drop_last(), unit, ms);
        let m = s.last();
        if m > 0 && !is_excessive(m, unit, ms) && m as int > r {
            m as int
        } else {
            r
        }
    }
}

/// Largest excessive measurement of `s`; 0 if none.
pub open spec fn high_max(s: Seq<u32>, unit: int, ms: int) -> int
    decreases s.len(),
{
    if s.len() == 0 {
        0
    } else {
        let r = high_max(s.drop_last(), unit, ms);
        let m = s.last();
        if is_excessive(m, unit, ms) && m as int > r {
            m as int
        } else {
            r
        }
    }
}

/// The fitting chosen for a set of measurements.
pub struct Scale {
    /// Steps available: eight for each line.
    pub max_steps: u32,
    /// Steps per unit before fitting.
    pub unit: u32,
    /// Whether any measurement is excessive.
    pub any_excessive: bool,
    /// Whether the excessive measurements are the ones shown.
    pub show_excessive: bool,
    /// The measurement that is fitted to the full height; 0 if all are zero.
    pub fit: u32,
}

/// Whether the large values are shown, under a view preference.
pub open spec fn shows_excessive(view: ViewPreference, low: int, high: int) -> bool {
    high > 0 && (view == ViewPreference::Top || low == 0)
}

impl Scale {
    /// The fitting of `all` (both series together) into `height` lines.
    pub open spec fn of(height: nat, view: ViewPreference, all: Seq<u32>) -> Scale {
        let ms = max_steps(height);
        let unit = unit_steps(height, all);
        let low = low_max(all, unit, ms);
        let high = high_max(all, unit, ms);
        let show = shows_excessive(view, low, high);
        Scale {
            max_steps: ms as u32,
            unit: unit as u32,
            any_excessive: high > 0,
            show_excessive: show,
            fit: (if show {
                high
            } else {
                low
            }) as u32,
        }
    }

    /// The step of measurement `m` under this fitting.
    pub open spec fn step(self, m: u32) -> int {
        if m == 0 {
            0
        } else if self.any_excessive && !self.show_excessive && is_excessive(
            m,
            self.unit as int,
            self.max_steps as int,
        ) {
            -2
        } else if self.any_excessive && self.show_excessive && !is_excessive(
            m,
            self.unit as int,
            self.max_steps as int,
        ) {
            -1
        } else {
            let q = if self.fit == 0 {
                0
            } else {
                m as int * self.max_steps as int / self.fit as int
            };
            let q = if q > STEP_LIMIT as int {
                STEP_LIMIT as int
            } else {
                q
            };
            if q == 0 {
                -1
            } else {
                q
            }
        }
    }
}

/// Largest value of `all`.
pub fn max_value(all: &Vec<u32>) -> (r: u32)
    ensures
        r as int == seq_max(all@),
{
    let mut r: u32 = 0;
    let mut i: usize = 0;
    while i < all.len()
        invariant
            i <= all@.len(),
            r as int == seq_max(all@.take(i as int)),
        decreases all.len() - i,
    {
        assert(all@.take(i + 1).drop_last() =~= all@.take(i as int));
        if all[i] > r {
            r = all[i];
        }
        i = i + 1;
    }
    assert(all@.take(all@.len() as int) =~= all@);
    r
}

/// Whether `m` is excessive at `unit` steps per unit, with `ms` steps available.
fn excessive(m: u32, unit: u32, ms: u32) -> (r: bool)
    ensures
        r == is_excessive(m, unit as int, ms as int),
{
    if m == 0 {
        return false;
    }
    if m > 65535 {
        return true;
    }
    assert((m as int) * (unit as int) <= 65535 * 0xffff_ffff) by (nonlinear_arith)
        requires m <= 65535, unit <= 0xffff_ffff;
    (m as u64) * (unit as u64) > ms as u64
}

/// Largest measurements of `all` that are, and are not, excessive.
fn low_and_high(all: &Vec<u32>, unit: u32, ms: u32) -> (r: (u32, u32))
    ensures
        r.0 as int == low_max(all@, unit as int, ms as int),
        r.1 as int == high_max(all@, unit as int, ms as int),
{
    let mut low: u32 = 0;
    let mut high: u32 = 0;
    let mut i: usize = 0;
    while i < all.len()
        invariant
            i <= all@.len(),
            low as int == low_max(all@.take(i as int), unit as int, ms as int),
            high as int == high_max(all@.take(i as int), unit as int, ms as int),
        decreases all.len() - i,
    {
        assert(all@.take(i + 1).drop_last() =~= all@.take(i as int));
        let m = all[i];
        if excessive(m, unit, ms) {
            if m > high {
                high = m;
            }
        } else if m > 0 && m > low {
            low = m;
        }
        i = i + 1;
    }
    assert(all@.take(all@.len() as int) =~= all@);
    (low, high)
}

impl Scale {
    /// The fitting of `all`, the measurements of both series, into `height` lines.
    pub fn new(all: &Vec<u32>, height: u16, view: ViewPreference) -> (s: Scale)
        requires
            height <= 8191,
        ensures
            s == Scale::of(height as nat, view, all@),
    {
        let ms: u32 = height as u32 * 8;
        let top = max_value(all);
        let unit: u32 = if top == 0 || ms / top < 1 {
            1
        } else {
            ms / top
        };
        proof {
            lemma_unit_range(height as nat, all@);
        }
        let (low, high) = low_and_high(all, unit, ms);
        let show = high > 0 && (view == ViewPreference::Top || low == 0);
        let fit = if show {
            high
        } else {
            low
        };
        Scale { max_steps: ms, unit, any_excessive: high > 0, show_excessive: show, fit }
    }

    /// The step of measurement `m`.
    pub fn to_step(&self, m: u32) -> (r: i16)
        requires
            self.max_steps <= 65528,
        ensures
            r as int == self.step(m),
    {
        if m == 0 {
            return 0;
        }
        let exc = excessive(m, self.unit, self.max_steps);
        if self.any_excessive && !self.show_excessive && exc {
            -2
        } else if self.any_excessive && self.show_excessive && !exc {
            -1
        } else {
            let q: u64 = if self.fit == 0 {
                0
            } else {
                assert((m as int) * (self.max_steps as int) <= 0xffff_ffff * 65528) by (nonlinear_arith)
                    requires m <= 0xffff_ffff, self.max_steps <= 65528;
                (m as u64) * (self.max_steps as u64) / (self.fit as u64)
            };
            let q: u64 = if q > STEP_LIMIT as u64 {
                STEP_LIMIT as u64
            } else {
                q
            };
            if q == 0 {
                -1
            } else {
                q as i16
            }
        }
    }
}

/// The step of measurement `m` in a chart of `height` lines whose series hold `all`.
pub open spec fn step_of(m: u32, height: nat, view: ViewPreference, all: Seq<u32>) -> int {
    Scale::of(height, view, all).step(m)
}

proof fn lemma_low_max_bounds(s: Seq<u32>, unit: int, ms: int, k: int)
    requires
        0 <= k < s.len(),
        s[k] > 0,
        !is_excessive(s[k], unit, ms),
    ensures
        low_max(s, unit, ms) >= s[k],
    decreases s.len(),
{
    if k < s.len() - 1 {
        lemma_low_max_bounds(s.drop_last(), unit, ms, k);
    }
}

proof fn lemma_high_max_bounds(s: Seq<u32>, unit: int, ms: int, k: int)
    requires
        0 <= k < s.len(),
        is_excessive(s[k], unit, ms),
    ensures
        high_max(s, unit, ms) >= s[k],
    decreases s.len(),
{
    if k < s.len() - 1 {
        lemma_high_max_bounds(s.drop_last(), unit, ms, k);
    }
}

proof fn lemma_low_max_range(s: Seq<u32>, unit: int, ms: int)
    ensures
        0 <= low_max(s, unit, ms) <= u32::MAX,
    decreases s.len(),
{
    if s.len() > 0 {
        lemma_low_max_range(s.drop_last(), unit, ms);
    }
}

proof fn lemma_high_max_range(s: Seq<u32>, unit: int, ms: int)
    ensures
        0 <= high_max(s, unit, ms) <= u32::MAX,
    decreases s.len(),
{
    if s.len() > 0 {
        lemma_high_max_range(s.drop_last(), unit, ms);
    }
}

proof fn lemma_seq_max_range(s: Seq<u32>)
    ensures
        0 <= seq_max(s) <= u32::MAX,
    decreases s.len(),
{
    if s.len() > 0 {
        lemma_seq_max_range(s.drop_last());
    }
}

proof fn lemma_unit_range(height: nat, all: Seq<u32>)
    requires
        height <= 8191,
    ensures
        1 <= unit_steps(height, all) <= 65528,
{
    let top = seq_max(all);
    let ms = max_steps(height);
    if top > 0 {
        assert(ms / top <= ms) by (nonlinear_arith)
            requires top >= 1, ms >= 0;
    }
}

/// A measurement of the series is no larger than the fitted one, unless it is
/// marked rather than scaled.
proof fn lemma_scaled_within_fit(height: nat, view: ViewPreference, all: Seq<u32>, k: int)
    requires
        0 <= k < all.len(),
        all[k] > 0,
        height <= 8191,
    ensures
        ({
            let s = Scale::of(height, view, all);
            &&& s.fit > 0
            &&& s.unit as int == unit_steps(height, all)
            &&& s.max_steps as int == max_steps(height)
            &&& (!(s.any_excessive && !s.show_excessive && is_excessive(all[k], s.unit as int, s.max_steps as int))
                && !(s.any_excessive && s.show_excessive && !is_excessive(all[k], s.unit as int, s.max_steps as int)))
                ==> all[k] <= s.fit
        }),
{
    let ms = max_steps(height);
    let unit = unit_steps(height, all);
    lemma_low_max_range(all, unit, ms);
    lemma_high_max_range(all, unit, ms);
    lemma_unit_range(height, all);
    if is_excessive(all[k], unit, ms) {
        lemma_high_max_bounds(all, unit, ms, k);
    } else {
        lemma_low_max_bounds(all, unit, ms, k);
    }
}

/// Every step lies in `{-2, -1, 0}` or in `1..=8 * height`.
pub proof fn lemma_step_range(height: nat, view: ViewPreference, all: Seq<u32>, k: int)
    requires
        0 <= k < all.len(),
        height <= 8191,
    ensures
        ({
            let st = step_of(all[k], height, view, all);
            st == -2 || st == -1 || st == 0 || (1 <= st <= max_steps(height))
        }),
{
    if all[k] > 0 {
        lemma_scaled_within_fit(height, view, all, k);
        let s = Scale::of(height, view, all);
        let m = all[k] as int;
        let f = s.fit as int;
        let ms = s.max_steps as int;
        assert(ms == max_steps(height));
        if m <= f && f > 0 {
            assert(m * ms <= f * ms) by (nonlinear_arith)
                requires m <= f, ms >= 0;
            assert(m * ms / f <= ms) by (nonlinear_arith)
                requires m * ms <= f * ms, f > 0;
            assert(m * ms / f >= 0) by (nonlinear_arith)
                requires m >= 0, ms >= 0, f > 0;
        }
    }
}

proof fn lemma_seq_max_ge(s: Seq<u32>, i: int)
    requires
        0 <= i < s.len(),
    ensures
        seq_max(s) >= s[i],
    decreases s.len(),
{
    if i < s.len() - 1 {
        lemma_seq_max_ge(s.drop_last(), i);
    }
}

proof fn lemma_seq_max_scaled(a: Seq<u32>, b: Seq<u32>, k: int)
    requires
        a.len() == b.len(),
        k >= 0,
        forall|i: int| 0 <= i < a.len() ==> b[i] == k * a[i],
    ensures
        seq_max(b) == k * seq_max(a),
    decreases a.len(),
{
    if a.len() > 0 {
        lemma_seq_max_scaled(a.drop_last(), b.drop_last(), k);
        let r = seq_max(a.drop_last());
        let x = a.last() as int;
        assert(x > r ==> k * x >= k * r) by (nonlinear_arith)
            requires k >= 0;
        assert(x <= r ==> k * x <= k * r) by (nonlinear_arith)
            requires k >= 0;
    }
}

proof fn lemma_fitting_maxima(s: Seq<u32>, unit: int, ms: int)
    requires
        forall|i: int| 0 <= i < s.len() ==> !is_excessive(#[trigger] s[i], unit, ms),
    ensures
        low_max(s, unit, ms) == seq_max(s),
        high_max(s, unit, ms) == 0,
    decreases s.len(),
{
    if s.len() > 0 {
        assert(!is_excessive(s[s.len() - 1], unit, ms));
        lemma_fitting_maxima(s.drop_last(), unit, ms);
    }
}

/// Where the largest value fits the chart, no value is excessive and the
/// largest value is the one fitted.
proof fn lemma_all_fit(all: Seq<u32>, height: nat)
    requires
        1 <= height <= 8191,
        seq_max(all) <= max_steps(height),
    ensures
        ({
            let s = Scale::of(height, ViewPreference::Bottom, all);
            &&& !s.any_excessive
            &&& s.fit == seq_max(all)
            &&& Scale::of(height, ViewPreference::Top, all) == s
        }),
{
    let ms = max_steps(height);
    let top = seq_max(all);
    let unit = unit_steps(height, all);
    lemma_seq_max_range(all);
    assert forall|i: int| 0 <= i < all.len() implies !is_excessive(#[trigger] all[i], unit, ms) by {
        lemma_seq_max_ge(all, i);
        let m = all[i] as int;
        if m > 0 {
            assert(top >= 1);
            assert(ms / top >= 1) by (nonlinear_arith)
                requires top <= ms, top >= 1;
            assert(m * (ms / top) <= ms) by (nonlinear_arith)
                requires m <= top, top >= 1, ms >= 0;
        }
    }
    lemma_fitting_maxima(all, unit, ms);
}

proof fn lemma_excessive_maxima(s: Seq<u32>, unit: int, ms: int)
    requires
        forall|i: int| 0 <= i < s.len() ==> #[trigger] s[i] == 0 || is_excessive(s[i], unit, ms),
    ensures
        low_max(s, unit, ms) == 0,
        high_max(s, unit, ms) == seq_max(s),
    decreases s.len(),
{
    if s.len() > 0 {
        assert(s[s.len() - 1] == 0 || is_excessive(s[s.len() - 1], unit, ms));
        assert forall|i: int| 0 <= i < s.drop_last().len() implies #[trigger] s.drop_last()[i] == 0
            || is_excessive(s.drop_last()[i], unit, ms) by {
            assert(s.drop_last()[i] == s[i]);
        }
        lemma_excessive_maxima(s.drop_last(), unit, ms);
        lemma_seq_max_range(s.drop_last());
    }
}

/// Where every nonzero value is above what the chart holds, all of them are
/// excessive and shown, and the largest is the one fitted.
proof fn lemma_all_over(all: Seq<u32>, height: nat, view: ViewPreference)
    requires
        1 <= height <= 8191,
        seq_max(all) > 0,
        forall|j: int| 0 <= j < all.len() ==> #[trigger] all[j] == 0 || all[j] > max_steps(height),
    ensures
        ({
            let s = Scale::of(height, view, all);
            &&& s.any_excessive
            &&& s.show_excessive
            &&& s.unit == 1
            &&& s.max_steps == max_steps(height)
            &&& s.fit == seq_max(all)
        }),
{
    let ms = max_steps(height);
    let top = seq_max(all);
    lemma_seq_max_range(all);
    assert(exists|j: int| 0 <= j < all.len() && all[j] == top) by {
        lemma_seq_max_witness(all);
    }
    let j = choose|j: int| 0 <= j < all.len() && all[j] == top;
    assert(all[j] == 0 || all[j] > ms);
    assert(top > ms);
    assert(ms / top == 0) by (nonlinear_arith)
        requires top > ms, ms >= 0;
    assert(unit_steps(height, all) == 1);
    lemma_excessive_maxima(all, 1, ms);
}

proof fn lemma_seq_max_witness(s: Seq<u32>)
    requires
        seq_max(s) > 0,
    ensures
        exists|j: int| 0 <= j < s.len() && s[j] == seq_max(s),
    decreases s.len(),
{
    if seq_max(s.drop_last()) == seq_max(s) {
        lemma_seq_max_witness(s.drop_last());
        let j = choose|j: int| 0 <= j < s.drop_last().len() && s.drop_last()[j] == seq_max(s.drop_last());
        assert(s[j] == seq_max(s));
    } else {
        assert(s[s.len() - 1] == seq_max(s));
    }
}

/// Multiplying every measurement by `k` keeps every step, where either the
/// largest multiplied measurement still fits the chart at one step per unit, or
/// every nonzero measurement is already above what the chart holds.
pub proof fn lemma_scaling_keeps_steps(a: Seq<u32>, b: Seq<u32>, k: int, height: nat, view: ViewPreference, i: int)
    requires
        1 <= height <= 8191,
        a.len() == b.len(),
        k >= 1,
        forall|j: int| 0 <= j < a.len() ==> b[j] == k * a[j],
        k * seq_max(a) <= max_steps(height) || forall|j: int|
            0 <= j < a.len() ==> #[trigger] a[j] == 0 || a[j] > max_steps(height),
        0 <= i < a.len(),
    ensures
        step_of(b[i], height, view, b) == step_of(a[i], height, view, a),
{
    lemma_seq_max_range(a);
    lemma_seq_max_scaled(a, b, k);
    let m = a[i] as int;
    let top = seq_max(a);
    let ms = max_steps(height);
    assert(b[i] == k * m);
    if m == 0 {
        assert(k * m == 0) by (nonlinear_arith)
            requires m == 0;
    } else {
        lemma_seq_max_ge(a, i);
        assert((k * m) * ms / (k * top) == m * ms / top) by (nonlinear_arith)
            requires k >= 1, top >= 1, m >= 0, ms >= 0;
        assert(k * m > 0) by (nonlinear_arith)
            requires k >= 1, m > 0;
        if k * seq_max(a) <= ms {
            assert(seq_max(a) <= k * seq_max(a)) by (nonlinear_arith)
                requires k >= 1, seq_max(a) >= 0;
            lemma_all_fit(a, height);
            lemma_all_fit(b, height);
        } else {
            assert forall|j: int| 0 <= j < b.len() implies #[trigger] b[j] == 0 || b[j] > ms by {
                assert(a[j] == 0 || a[j] > ms);
                assert(b[j] == k * a[j]);
                assert(k * a[j] >= a[j]) by (nonlinear_arith)
                    requires k >= 1, a[j] >= 0;
            }
            assert(k * top > 0) by (nonlinear_arith)
                requires k >= 1, top >= 1;
            lemma_all_over(a, height, view);
            lemma_all_over(b, height, view);
            assert(a[i] > ms);
            assert(b[i] > ms);
        }
    }
}

} // verus!
