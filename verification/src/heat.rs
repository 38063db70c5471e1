//! Cellular-automaton heat field ("rising fire").
//!
//! A 2D grid of fixed-point heat values in `[0, HEAT_ONE]`, row-major with
//! index `y * width + x`.  The bottom row (the highest indices) is seeded
//! to full heat at construction and never written afterwards: propagation
//! clamps every target index below the seed row.  One [`HeatField::propagate`]
//! call moves each cell's heat one row up, offset horizontally by a random
//! wind from `{-1, 0, 1, 2}` and reduced by a random cooling amount drawn
//! around `cooling_rate`.

use vstd::prelude::*;

use vstd::arithmetic::div_mod::lemma_div_is_ordered;
use vstd::arithmetic::mul::lemma_mul_inequality;
use vstd::math::max;

use crate::fixed::div_tz;
use crate::fixed::lemma_scale_frac_range;
use crate::fixed::mul_div_sat;
use crate::rng::rand_in_range;

verus! {

/// Full heat, in the fixed-point encoding of `1.0`.
pub const HEAT_ONE: u32 = 65536;

/// Color ramp knot positions (fixed-point heat values).
pub const KNOT1: u32 = 19661;

pub const KNOT2: u32 = 32768;

pub const KNOT3: u32 = 52429;

pub const KNOT4: u32 = 62259;

/// Why a heat field could not be built.
#[derive(Clone, Copy, Debug, PartialEq, Eq, Structural)]
pub enum HeatError {
    /// The grid width or height was zero.
    InvalidDimension,
}

/// One RGBA pixel.
#[derive(Clone, Copy, Debug, PartialEq, Eq, Structural)]
pub struct Rgba {
    pub r: u8,
    pub g: u8,
    pub b: u8,
    pub a: u8,
}

/// Linear interpolation between two channel bytes, `num / den` of the way
/// from `a` to `b`, truncated toward zero.
pub open spec fn spec_mix8(a: u8, b: u8, num: int, den: int) -> u8 {
    (a + div_tz((b - a) * num, den)) as u8
}

/// Linear interpolation between two colors.
pub open spec fn spec_mix_rgba(c0: Rgba, c1: Rgba, num: int, den: int) -> Rgba {
    Rgba {
        r: spec_mix8(c0.r, c1.r, num, den),
        g: spec_mix8(c0.g, c1.g, num, den),
        b: spec_mix8(c0.b, c1.b, num, den),
        a: spec_mix8(c0.a, c1.a, num, den),
    }
}

/// The fixed color ramp: transparent black, dark red, orange, yellow,
/// white, interpolated piecewise-linearly over normalized heat.
pub open spec fn spec_heat_color(h: int) -> Rgba {
    if h < KNOT1 {
        spec_mix_rgba(
            Rgba { r: 0, g: 0, b: 0, a: 0 },
            Rgba { r: 64, g: 4, b: 0, a: 204 },
            h,
            KNOT1 as int,
        )
    } else if h < KNOT2 {
        spec_mix_rgba(
            Rgba { r: 64, g: 4, b: 0, a: 204 },
            Rgba { r: 115, g: 43, b: 18, a: 255 },
            h - KNOT1,
            KNOT2 - KNOT1,
        )
    } else if h < KNOT3 {
        spec_mix_rgba(
            Rgba { r: 115, g: 43, b: 18, a: 255 },
            Rgba { r: 217, g: 129, b: 41, a: 255 },
            h - KNOT2,
            KNOT3 - KNOT2,
        )
    } else if h < KNOT4 {
        spec_mix_rgba(
            Rgba { r: 217, g: 129, b: 41, a: 255 },
            Rgba { r: 245, g: 207, b: 39, a: 255 },
            h - KNOT3,
            KNOT4 - KNOT3,
        )
    } else if h < HEAT_ONE {
        spec_mix_rgba(
            Rgba { r: 245, g: 207, b: 39, a: 255 },
            Rgba { r: 255, g: 255, b: 255, a: 255 },
            h - KNOT4,
            HEAT_ONE - KNOT4,
        )
    } else {
        Rgba { r: 255, g: 255, b: 255, a: 255 }
    }
}

/// Channel interpolation, executable form.
fn mix8(a: u8, b: u8, num: i64, den: i64) -> (r: u8)
    requires
        0 <= num <= den,
        1 <= den <= 0x10000,
    ensures
        r == spec_mix8(a, b, num as int, den as int),
{
    let d: i64 = b as i64 - a as i64;
    proof {
        lemma_scale_frac_range(d as int, num as int, den as int);
    }
    let m: i64 = mul_div_sat(d, num, den);
    let v: i64 = a as i64 + m;
    v as u8
}

/// Color interpolation, executable form.
fn mix_rgba(c0: Rgba, c1: Rgba, num: i64, den: i64) -> (c: Rgba)
    requires
        0 <= num <= den,
        1 <= den <= 0x10000,
    ensures
        c == spec_mix_rgba(c0, c1, num as int, den as int),
{
    Rgba {
        r: mix8(c0.r, c1.r, num, den),
        g: mix8(c0.g, c1.g, num, den),
        b: mix8(c0.b, c1.b, num, den),
        a: mix8(c0.a, c1.a, num, den),
    }
}

/// Maps one heat value to its color on the fixed ramp.  Deterministic:
/// the same heat always gives the same color.
pub fn heat_color(h: u32) -> (c: Rgba)
    requires
        h <= HEAT_ONE,
    ensures
        c == spec_heat_color(h as int),
{
    if h < KNOT1 {
        mix_rgba(
            Rgba { r: 0, g: 0, b: 0, a: 0 },
            Rgba { r: 64, g: 4, b: 0, a: 204 },
            h as i64,
            KNOT1 as i64,
        )
    } else if h < KNOT2 {
        mix_rgba(
            Rgba { r: 64, g: 4, b: 0, a: 204 },
            Rgba { r: 115, g: 43, b: 18, a: 255 },
            h as i64 - KNOT1 as i64,
            KNOT2 as i64 - KNOT1 as i64,
        )
    } else if h < KNOT3 {
        mix_rgba(
            Rgba { r: 115, g: 43, b: 18, a: 255 },
            Rgba { r: 217, g: 129, b: 41, a: 255 },
            h as i64 - KNOT2 as i64,
            KNOT3 as i64 - KNOT2 as i64,
        )
    } else if h < KNOT4 {
        mix_rgba(
            Rgba { r: 217, g: 129, b: 41, a: 255 },
            Rgba { r: 245, g: 207, b: 39, a: 255 },
            h as i64 - KNOT3 as i64,
            KNOT4 as i64 - KNOT3 as i64,
        )
    } else if h < HEAT_ONE {
        mix_rgba(
            Rgba { r: 245, g: 207, b: 39, a: 255 },
            Rgba { r: 255, g: 255, b: 255, a: 255 },
            h as i64 - KNOT4 as i64,
            HEAT_ONE as i64 - KNOT4 as i64,
        )
    } else {
        Rgba { r: 255, g: 255, b: 255, a: 255 }
    }
}

/// The largest heat value of a grid (zero for an empty grid).
pub open spec fn seq_max(s: Seq<u32>) -> int
    decreases s.len(),
{
    if s.len() == 0 {
        0
    } else {
        max(s.last() as int, seq_max(s.drop_last()))
    }
}

/// Every cell is bounded by the grid maximum.
pub proof fn lemma_seq_max_ge(s: Seq<u32>, i: int)
    requires
        0 <= i < s.len(),
    ensures
        s[i] as int <= seq_max(s),
    decreases s.len(),
{
    if i < s.len() - 1 {
        lemma_seq_max_ge(s.drop_last(), i);
    }
}

/// The index one propagation step sends a source cell to: one row up
/// (`above`), offset by the wind, clamped to stay inside `[0, cap)`.
pub open spec fn spec_target_index(above: int, wind: int, cap: int) -> int {
    let t: int = above + wind;
    if t < 0 {
        0
    } else if t >= cap {
        cap - 1
    } else {
        t
    }
}

/// Law: however the wind offsets a source cell, the propagation target
/// index never leaves the grid — never below `0`, never above
/// `width * height - 1` — and it stays out of the seeded bottom row.
pub proof fn lemma_wind_stays_in_grid(above: int, wind: int, w: int, h: int)
    requires
        1 <= w,
        2 <= h,
        0 <= above < (h - 1) * w,
        -1 <= wind <= 2,
    ensures
        0 <= spec_target_index(above, wind, (h - 1) * w),
        spec_target_index(above, wind, (h - 1) * w) < (h - 1) * w,
        spec_target_index(above, wind, (h - 1) * w) <= w * h - 1,
{
    assert((h - 1) * w < h * w) by (nonlinear_arith)
        requires
            1 <= w,
            2 <= h,
    ;
    assert(h * w == w * h) by (nonlinear_arith);
}

/// Clamped target index, executable form.
pub fn target_index(above: usize, wind: i64, cap: usize) -> (idx: usize)
    requires
        1 <= cap,
        (above as int) < 0x4000_0000_0000_0000,
        (cap as int) < 0x4000_0000_0000_0000,
        -2 <= wind <= 2,
    ensures
        idx as int == spec_target_index(above as int, wind as int, cap as int),
        idx < cap,
{
    let t: i64 = above as i64 + wind;
    if t < 0 {
        0
    } else if t >= cap as i64 {
        cap - 1
    } else {
        t as usize
    }
}

/// The value one propagation write stores: the source heat minus the
/// drawn cooling, floored at zero.
pub open spec fn spec_cooled(v: int, cool: int) -> u32
    recommends
        0 <= v <= HEAT_ONE,
        0 <= cool,
{
    if cool >= v {
        0u32
    } else {
        (v - cool) as u32
    }
}

/// The first `k` writes of one generation applied to `g`, column-major
/// bottom-to-top: write `j` has source column `j / (h-1)` and source row
/// `1 + j % (h-1)`, and stores the cooled source heat one row up, offset
/// by the drawn wind and clamped inside the grid below the seed row.
/// Reads see the in-place values of the same generation, and a later
/// write to the same target wins.
pub open spec fn spec_propagate_upto(
    g: Seq<u32>,
    w: int,
    h: int,
    winds: Seq<i64>,
    cools: Seq<i64>,
    k: int,
) -> Seq<u32>
    recommends
        1 <= w,
        2 <= h,
        g.len() == w * h,
        k <= winds.len(),
        k <= cools.len(),
    decreases k,
{
    if k <= 0 {
        g
    } else {
        let prev = spec_propagate_upto(g, w, h, winds, cools, k - 1);
        let x = (k - 1) / (h - 1);
        let y = 1 + (k - 1) % (h - 1);
        let source = y * w + x;
        let target = spec_target_index(source - w, winds[k - 1] as int, (h - 1) * w);
        prev.update(target, spec_cooled(prev[source] as int, cools[k - 1] as int))
    }
}

/// One whole generation: all `w * (h - 1)` writes applied in order.
pub open spec fn spec_propagate(
    g: Seq<u32>,
    w: int,
    h: int,
    winds: Seq<i64>,
    cools: Seq<i64>,
) -> Seq<u32> {
    spec_propagate_upto(g, w, h, winds, cools, winds.len() as int)
}

/// What one `propagate` call does, for some draws: one wind and one
/// cooling per source cell, each within its documented range, and the
/// new grid exactly the generation fold over them.
pub open spec fn spec_propagate_outcome(
    before: Seq<u32>,
    after: Seq<u32>,
    w: int,
    h: int,
    c: int,
    winds: Seq<i64>,
    cools: Seq<i64>,
) -> bool {
    &&& winds.len() == (h - 1) * w
    &&& cools.len() == winds.len()
    &&& (forall|k: int| 0 <= k < winds.len() ==> -1 <= #[trigger] winds[k] <= 2)
    &&& (forall|k: int| 0 <= k < cools.len() ==> c - 9 * c / 10 <= #[trigger] cools[k] <= c + 9 * c
        / 10)
    &&& after == spec_propagate(before, w, h, winds, cools)
}

/// The first `k` writes depend only on the first `k` draws.
pub proof fn lemma_propagate_upto_prefix(
    g: Seq<u32>,
    w: int,
    h: int,
    ws1: Seq<i64>,
    cs1: Seq<i64>,
    ws2: Seq<i64>,
    cs2: Seq<i64>,
    k: int,
)
    requires
        0 <= k,
        k <= ws1.len(),
        k <= cs1.len(),
        k <= ws2.len(),
        k <= cs2.len(),
        forall|j: int| 0 <= j < k ==> ws1[j] == ws2[j] && cs1[j] == cs2[j],
    ensures
        spec_propagate_upto(g, w, h, ws1, cs1, k) == spec_propagate_upto(g, w, h, ws2, cs2, k),
    decreases k,
{
    if k > 0 {
        lemma_propagate_upto_prefix(g, w, h, ws1, cs1, ws2, cs2, k - 1);
    }
}

/// The heat grid: `width * height` fixed-point heat values, row-major,
/// bottom row seeded to [`HEAT_ONE`].
pub struct HeatField {
    /// Grid width, fixed at construction.
    pub width: usize,
    /// Grid height, fixed at construction.
    pub height: usize,
    /// Mean heat loss applied per upward step (fixed-point).
    pub cooling_rate: u32,
    /// The heat values, row-major; in range `[0, HEAT_ONE]` whenever the
    /// field is well-formed.
    pub cells: Vec<u32>,
}

impl HeatField {
    /// The grid contents, row-major.
    pub open spec fn grid(&self) -> Seq<u32> {
        self.cells@
    }

    /// Well-formedness: positive dimensions, a full grid of in-range heat
    /// values, and the bottom row at full heat.
    pub open spec fn wf(&self) -> bool {
        &&& 1 <= self.width
        &&& 1 <= self.height
        &&& self.grid().len() == self.width * self.height
        &&& self.width * self.height * 4 <= usize::MAX
        &&& forall|i: int| 0 <= i < self.grid().len() ==> self.grid()[i] <= HEAT_ONE
        &&& forall|i: int|
            (self.height - 1) * self.width <= i < self.grid().len() ==> self.grid()[i] == HEAT_ONE
    }

    /// Builds the grid: all cells zero except the bottom row at full heat.
    /// A zero dimension is rejected eagerly with [`HeatError::InvalidDimension`].
    pub fn new(width: usize, height: usize, cooling_rate: u32) -> (r: Result<HeatField, HeatError>)
        requires
            width * height * 4 <= usize::MAX,
        ensures
            match r {
                Ok(f) => {
                    &&& width >= 1 && height >= 1
                    &&& f.wf()
                    &&& f.width == width
                    &&& f.height == height
                    &&& f.cooling_rate == cooling_rate
                    &&& forall|i: int| 0 <= i < (height - 1) * width ==> f.grid()[i] == 0
                    &&& forall|i: int|
                        (height - 1) * width <= i < width * height ==> f.grid()[i] == HEAT_ONE
                },
                Err(e) => e == HeatError::InvalidDimension && (width == 0 || height == 0),
            },
    {
        if width == 0 || height == 0 {
            return Err(HeatError::InvalidDimension);
        }
        proof {
            lemma_mul_inequality(1, height as int, width as int);
            assert((height - 1) * (width as int) == height * width - width) by (nonlinear_arith);
            assert(width * height == height * width) by (nonlinear_arith);
            assert(width * height <= width * height * 4);
        }
        let count: usize = width * height;
        let boundary: usize = count - width;
        let mut cells: Vec<u32> = Vec::with_capacity(count);
        let mut i: usize = 0;
        while i < count
            invariant
                i <= count,
                cells@.len() == i,
                boundary <= count,
                forall|j: int| 0 <= j < i && j < boundary ==> cells@[j] == 0,
                forall|j: int| boundary <= j < i ==> cells@[j] == HEAT_ONE,
            decreases count - i,
        {
            if i < boundary {
                cells.push(0);
            } else {
                cells.push(HEAT_ONE);
            }
            i = i + 1;
        }
        let f = HeatField { width, height, cooling_rate, cells };
        proof {
            assert((height - 1) * (width as int) == height * width - width) by (nonlinear_arith);
            assert(width * height == height * width) by (nonlinear_arith);
        }
        Ok(f)
    }

    /// The heat value of the cell at `(x, y)`.
    pub fn heat_at(&self, x: usize, y: usize) -> (h: u32)
        requires
            self.wf(),
            x < self.width,
            y < self.height,
        ensures
            h == self.grid()[y * self.width + x],
    {
        proof {
            lemma_mul_inequality(y as int + 1, self.height as int, self.width as int);
            assert((y + 1) * (self.width as int) == y * self.width + self.width)
                by (nonlinear_arith);
            assert((self.height as int) * (self.width as int) == (self.width as int) * (
            self.height as int)) by (nonlinear_arith);
        }
        self.cells[y * self.width + x]
    }

    /// One generation step.  Every cell of rows `1..height` is a source;
    /// its heat, reduced by a random cooling amount drawn uniformly from
    /// `[cooling_rate - 0.9 * cooling_rate, cooling_rate + 0.9 * cooling_rate]`
    /// and floored at zero, is written one row up, offset by a random wind
    /// from `{-1, 0, 1, 2}`, clamped inside the grid and below the seed
    /// row.  Later writes win over earlier ones.
    ///
    /// The new grid is exactly the generation fold [`spec_propagate`]
    /// over some in-range draws, and whatever those draws were: no cell
    /// exceeds the largest heat present before the call (no energy is
    /// created), no cell goes below zero, and the bottom row is
    /// untouched.
    pub fn propagate(&mut self)
        requires
            old(self).wf(),
        ensures
            final(self).wf(),
            final(self).width == old(self).width,
            final(self).height == old(self).height,
            final(self).cooling_rate == old(self).cooling_rate,
            final(self).grid().len() == old(self).grid().len(),
            exists|winds: Seq<i64>, cools: Seq<i64>|
                spec_propagate_outcome(
                    old(self).grid(),
                    final(self).grid(),
                    old(self).width as int,
                    old(self).height as int,
                    old(self).cooling_rate as int,
                    winds,
                    cools,
                ),
            forall|i: int|
                0 <= i < final(self).grid().len()
                    ==> final(self).grid()[i] as int <= seq_max(old(self).grid()),
            forall|i: int|
                (old(self).height - 1) * old(self).width <= i < final(self).grid().len()
                    ==> final(self).grid()[i] == old(self).grid()[i],
    {
        let ghost orig: Seq<u32> = self.cells@;
        let w: usize = self.width;
        let h: usize = self.height;
        if h == 1 {
            proof {
                assert forall|i: int| 0 <= i < self.cells@.len() implies self.cells@[i] as int
                    <= seq_max(orig) by {
                    lemma_seq_max_ge(orig, i);
                }
                assert((h as int - 1) * (w as int) == 0) by (nonlinear_arith)
                    requires
                        h == 1usize,
                ;
                assert(spec_propagate_outcome(
                    orig,
                    self.cells@,
                    w as int,
                    h as int,
                    self.cooling_rate as int,
                    Seq::<i64>::empty(),
                    Seq::<i64>::empty(),
                ));
            }
            return ;
        }
        let c64: u64 = self.cooling_rate as u64;
        let variance: u64 = c64 * 9 / 10;
        proof {
            lemma_div_is_ordered(c64 * 9, c64 * 10, 10);
            vstd::arithmetic::div_mod::lemma_div_by_multiple(c64 as int, 10);
        }
        let cool_lo: u64 = c64 - variance;
        let cool_hi: u64 = c64 + variance;
        proof {
            lemma_mul_inequality(h as int - 1, h as int, w as int);
            assert((h as int) * (w as int) == (w as int) * (h as int)) by (nonlinear_arith);
            assert((h as int - 1) * (w as int) >= 0) by (nonlinear_arith)
                requires
                    h >= 1,
            ;
            assert forall|i: int| 0 <= i < self.cells@.len() implies self.cells@[i] as int
                <= seq_max(orig) by {
                lemma_seq_max_ge(orig, i);
            }
            assert((h as int - 1) * (w as int) >= 1) by (nonlinear_arith)
                requires
                    h >= 2,
                    w >= 1,
            ;
            assert(cool_lo as int == self.cooling_rate - 9 * self.cooling_rate / 10);
            assert(cool_hi as int == self.cooling_rate + 9 * self.cooling_rate / 10);
        }
        let boundary: usize = (h - 1) * w;
        let ghost mut winds: Seq<i64> = Seq::empty();
        let ghost mut cools: Seq<i64> = Seq::empty();
        let mut x: usize = 0;
        while x < w
            invariant
                x <= w,
                self.width == w,
                self.height == h,
                h >= 2,
                w >= 1,
                self.cooling_rate == old(self).cooling_rate,
                self.cells@.len() == orig.len(),
                orig.len() == w * h,
                w * h * 4 <= usize::MAX,
                1 <= boundary,
                boundary == (h - 1) * w,
                boundary <= orig.len(),
                cool_lo <= cool_hi <= 0x2_0000_0000u64,
                forall|i: int| 0 <= i < self.cells@.len() ==> self.cells@[i] <= HEAT_ONE,
                forall|i: int|
                    0 <= i < self.cells@.len() ==> self.cells@[i] as int <= seq_max(orig),
                forall|i: int| boundary <= i < self.cells@.len() ==> self.cells@[i] == orig[i],
                winds.len() == x * (h - 1),
                cools.len() == winds.len(),
                forall|j: int| 0 <= j < winds.len() ==> -1 <= #[trigger] winds[j] <= 2,
                forall|j: int|
                    0 <= j < cools.len() ==> cool_lo as int <= #[trigger] cools[j] <= cool_hi as int,
                cool_lo as int == self.cooling_rate - 9 * self.cooling_rate / 10,
                cool_hi as int == self.cooling_rate + 9 * self.cooling_rate / 10,
                self.cells@ == spec_propagate_upto(
                    orig,
                    w as int,
                    h as int,
                    winds,
                    cools,
                    winds.len() as int,
                ),
            decreases w - x,
        {
            let mut y: usize = 1;
            while y < h
                invariant
                    self.width == w,
                    self.height == h,
                    h >= 2,
                    w >= 1,
                    x < w,
                    1 <= y <= h,
                    self.cooling_rate == old(self).cooling_rate,
                    self.cells@.len() == orig.len(),
                    orig.len() == w * h,
                    w * h * 4 <= usize::MAX,
                    1 <= boundary,
                    boundary == (h - 1) * w,
                    boundary <= orig.len(),
                    cool_lo <= cool_hi <= 0x2_0000_0000u64,
                    forall|i: int| 0 <= i < self.cells@.len() ==> self.cells@[i] <= HEAT_ONE,
                    forall|i: int|
                        0 <= i < self.cells@.len() ==> self.cells@[i] as int <= seq_max(orig),
                    forall|i: int| boundary <= i < self.cells@.len() ==> self.cells@[i] == orig[i],
                    winds.len() == x * (h - 1) + (y - 1),
                    cools.len() == winds.len(),
                    forall|j: int| 0 <= j < winds.len() ==> -1 <= #[trigger] winds[j] <= 2,
                    forall|j: int|
                        0 <= j < cools.len() ==> cool_lo as int <= #[trigger] cools[j]
                            <= cool_hi as int,
                    cool_lo as int == self.cooling_rate - 9 * self.cooling_rate / 10,
                    cool_hi as int == self.cooling_rate + 9 * self.cooling_rate / 10,
                    self.cells@ == spec_propagate_upto(
                        orig,
                        w as int,
                        h as int,
                        winds,
                        cools,
                        winds.len() as int,
                    ),
                decreases h - y,
            {
                proof {
                    lemma_mul_inequality(y as int + 1, h as int, w as int);
                    assert((y + 1) * (w as int) == y * w + w) by (nonlinear_arith);
                    assert((h as int) * (w as int) == (w as int) * (h as int)) by (nonlinear_arith);
                    lemma_mul_inequality(1, y as int, w as int);
                }
                let source: usize = y * w + x;
                let above: usize = source - w;
                let wind: i64 = rand_in_range(-1, 2);
                proof {
                    assert((y - 1) * (w as int) == y * w - w) by (nonlinear_arith);
                    lemma_mul_inequality(y as int - 1, h as int - 1, w as int);
                }
                let target: usize = target_index(above, wind, boundary);
                let draw: i64 = rand_in_range(cool_lo as i64, cool_hi as i64);
                let src_val: u32 = self.cells[source];
                let new_val: u32 = if draw as u64 >= src_val as u64 {
                    0u32
                } else {
                    src_val - draw as u32
                };
                let ghost pre_cells: Seq<u32> = self.cells@;
                self.cells.set(target, new_val);
                proof {
                    let kk: int = winds.len() as int;
                    let winds0: Seq<i64> = winds;
                    let cools0: Seq<i64> = cools;
                    winds = winds.push(wind);
                    cools = cools.push(draw);
                    assert(winds[kk] == wind && cools[kk] == draw);
                    lemma_propagate_upto_prefix(
                        orig,
                        w as int,
                        h as int,
                        winds,
                        cools,
                        winds0,
                        cools0,
                        kk,
                    );
                    vstd::arithmetic::div_mod::lemma_fundamental_div_mod_converse(
                        kk,
                        h as int - 1,
                        x as int,
                        y as int - 1,
                    );
                    assert(kk / (h as int - 1) == x as int && kk % (h as int - 1) == y as int - 1);
                    assert(spec_propagate_upto(orig, w as int, h as int, winds, cools, kk)
                        == pre_cells);
                    assert(new_val == spec_cooled(pre_cells[source as int] as int, draw as int));
                    assert(self.cells@ == spec_propagate_upto(
                        orig,
                        w as int,
                        h as int,
                        winds,
                        cools,
                        kk + 1,
                    ));
                }
                y = y + 1;
            }
            proof {
                assert((x as int + 1) * (h as int - 1) == x as int * (h as int - 1) + (h as int
                    - 1)) by (nonlinear_arith);
            }
            x = x + 1;
        }
        proof {
            assert forall|i: int|
                (self.height - 1) * self.width <= i < self.cells@.len() implies self.cells@[i]
                == HEAT_ONE by {
                assert(boundary <= i);
                assert(self.cells@[i] == orig[i]);
            }
            assert((w as int) * (h as int - 1) == (h as int - 1) * (w as int)) by (nonlinear_arith);
            assert(spec_propagate_outcome(
                orig,
                self.cells@,
                w as int,
                h as int,
                self.cooling_rate as int,
                winds,
                cools,
            ));
        }
    }

    /// The current frame as a row-major RGBA byte sequence of length
    /// `width * height * 4`, each cell colored by [`spec_heat_color`].
    pub fn to_pixels(&self) -> (pixels: Vec<u8>)
        requires
            self.wf(),
        ensures
            pixels@.len() == self.grid().len() * 4,
            forall|i: int| #![trigger self.grid()[i]]
                0 <= i < self.grid().len() ==> {
                    let c = spec_heat_color(self.grid()[i] as int);
                    &&& pixels@[4 * i] == c.r
                    &&& pixels@[4 * i + 1] == c.g
                    &&& pixels@[4 * i + 2] == c.b
                    &&& pixels@[4 * i + 3] == c.a
                },
    {
        let count: usize = self.cells.len();
        proof {
            assert(count * 4 <= usize::MAX);
        }
        let mut pixels: Vec<u8> = Vec::with_capacity(count * 4);
        let mut i: usize = 0;
        while i < count
            invariant
                i <= count,
                count == self.grid().len(),
                self.wf(),
                pixels@.len() == 4 * i,
                count * 4 <= usize::MAX,
                forall|j: int| #![trigger self.grid()[j]]
                    0 <= j < i ==> {
                        let c = spec_heat_color(self.grid()[j] as int);
                        &&& pixels@[4 * j] == c.r
                        &&& pixels@[4 * j + 1] == c.g
                        &&& pixels@[4 * j + 2] == c.b
                        &&& pixels@[4 * j + 3] == c.a
                    },
            decreases count - i,
        {
            let c: Rgba = heat_color(self.cells[i]);
            pixels.push(c.r);
            pixels.push(c.g);
            pixels.push(c.b);
            pixels.push(c.a);
            i = i + 1;
        }
        pixels
    }
}

} // verus!
