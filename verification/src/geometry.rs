//! Rectangles in database units, and the roundings that put a coordinate on a grid.

use vstd::arithmetic::div_mod::{lemma_fundamental_div_mod, lemma_fundamental_div_mod_converse};
use vstd::prelude::*;

verus! {

/// `x` is a database-unit coordinate: it fits 32 bits.
pub open spec fn fits(x: int) -> bool {
    i32::MIN <= x <= i32::MAX
}

/// The mathematical content of a [`Rect`].
#[verifier::ext_equal]
pub struct Area {
    pub x_min: int,
    pub y_min: int,
    pub x_max: int,
    pub y_max: int,
}

impl Area {
    /// Horizontal extent, negative when the rectangle is inverted.
    pub open spec fn dx(self) -> int {
        self.x_max - self.x_min
    }

    /// Vertical extent, negative when the rectangle is inverted.
    pub open spec fn dy(self) -> int {
        self.y_max - self.y_min
    }

    /// A rectangle without extent on one axis, or inverted on it.
    pub open spec fn is_empty(self) -> bool {
        self.dx() <= 0 || self.dy() <= 0
    }

    /// No edge of `other` lies outside `self`.
    pub open spec fn contains(self, other: Area) -> bool {
        &&& self.x_min <= other.x_min
        &&& self.y_min <= other.y_min
        &&& self.x_max >= other.x_max
        &&& self.y_max >= other.y_max
    }

    /// Every edge is a database-unit coordinate.
    pub open spec fn fits(self) -> bool {
        fits(self.x_min) && fits(self.y_min) && fits(self.x_max) && fits(self.y_max)
    }
}

/// An axis-aligned rectangle in database units.
#[derive(Debug, Clone, Copy, PartialEq, Eq, Structural)]
pub struct Rect {
    pub x_min: i32,
    pub y_min: i32,
    pub x_max: i32,
    pub y_max: i32,
}

impl View for Rect {
    type V = Area;

    open spec fn view(&self) -> Area {
        Area {
            x_min: self.x_min as int,
            y_min: self.y_min as int,
            x_max: self.x_max as int,
            y_max: self.y_max as int,
        }
    }
}

impl Rect {
    /// The rectangle with these edges.
    pub fn new(x_min: i32, y_min: i32, x_max: i32, y_max: i32) -> (r: Rect)
        ensures
            r == (Rect { x_min, y_min, x_max, y_max }),
    {
        Rect { x_min, y_min, x_max, y_max }
    }

    /// Horizontal extent.
    pub fn dx(&self) -> (r: i32)
        requires
            fits(self@.dx()),
        ensures
            r == self@.dx(),
    {
        self.x_max - self.x_min
    }

    /// Vertical extent.
    pub fn dy(&self) -> (r: i32)
        requires
            fits(self@.dy()),
        ensures
            r == self@.dy(),
    {
        self.y_max - self.y_min
    }

    /// Is there nothing inside?
    pub fn is_empty(&self) -> (r: bool)
        ensures
            r == self@.is_empty(),
    {
        self.x_max <= self.x_min || self.y_max <= self.y_min
    }

    /// Does this rectangle fully contain `other`?
    pub fn contains(&self, other: &Rect) -> (r: bool)
        ensures
            r == self@.contains(other@),
    {
        self.x_min <= other.x_min && self.y_min <= other.y_min && self.x_max >= other.x_max
            && self.y_max >= other.y_max
    }

    /// Horizontal extent, whatever it is.
    pub(crate) fn wide_dx(&self) -> (r: i64)
        ensures
            r == self@.dx(),
    {
        self.x_max as i64 - self.x_min as i64
    }

    /// Vertical extent, whatever it is.
    pub(crate) fn wide_dy(&self) -> (r: i64)
        ensures
            r == self@.dy(),
    {
        self.y_max as i64 - self.y_min as i64
    }
}

/// `a / b` rounded toward zero.
pub open spec fn trunc_div(a: int, b: int) -> int {
    if a >= 0 {
        if b > 0 {
            a / b
        } else {
            -(a / (-b))
        }
    } else {
        if b > 0 {
            -((-a) / b)
        } else {
            (-a) / (-b)
        }
    }
}

/// Rounding toward zero never leaves the range between zero and `a`.
pub proof fn lemma_whole_steps_stay_within(a: int, step: int)
    requires
        step > 0,
    ensures
        a >= 0 ==> 0 <= trunc_div(a, step) * step <= a,
        a <= 0 ==> a <= trunc_div(a, step) * step <= 0,
{
    let m = if a >= 0 {
        a
    } else {
        -a
    };
    let q = m / step;
    lemma_fundamental_div_mod(m, step);
    assert(0 <= q * step <= m) by (nonlinear_arith)
        requires
            m == step * q + m % step,
            0 <= m % step < step,
            m >= 0,
            step > 0,
    ;
    assert((-q) * step == -(q * step)) by (nonlinear_arith);
}

/// `a / b` rounded down.
pub open spec fn floor_div(a: int, b: int) -> int {
    if b > 0 {
        a / b
    } else {
        (-a) / (-b)
    }
}

/// `a / b` rounded up.
pub open spec fn ceil_div(a: int, b: int) -> int {
    -floor_div(-a, b)
}

/// The multiple of `g` nearest to `c`; halfway goes away from zero.
pub open spec fn nearest_multiple(c: int, g: int) -> int {
    if c >= 0 {
        ((2 * c + g) / (2 * g)) * g
    } else {
        -(((2 * (-c) + g) / (2 * g)) * g)
    }
}

/// `c` on the manufacturing grid: unchanged where the technology declares none.
pub open spec fn on_mfg_grid(c: int, grid: Option<i32>) -> int {
    match grid {
        Some(g) => if g > 0 {
            nearest_multiple(c, g as int)
        } else {
            c
        },
        None => c,
    }
}

/// Every edge of `a` on the manufacturing grid.
pub open spec fn area_on_mfg_grid(a: Area, grid: Option<i32>) -> Area {
    Area {
        x_min: on_mfg_grid(a.x_min, grid),
        y_min: on_mfg_grid(a.y_min, grid),
        x_max: on_mfg_grid(a.x_max, grid),
        y_max: on_mfg_grid(a.y_max, grid),
    }
}

/// `x`, or the end of the 32-bit range that it lies beyond.
pub open spec fn saturated(x: int) -> int {
    if x < i32::MIN {
        i32::MIN as int
    } else if x > i32::MAX {
        i32::MAX as int
    } else {
        x
    }
}

/// `x` on the grid of `site_width` steps from `offset`: rounded down where `down` says so, else
/// up. A grid without a step has the one point `offset`. The step count and the result saturate
/// at 32 bits.
pub open spec fn site_loc(x: int, site_width: int, down: bool, offset: int) -> int {
    if site_width == 0 {
        offset
    } else {
        let steps = if down {
            floor_div(x - offset, site_width)
        } else {
            ceil_div(x - offset, site_width)
        };
        saturated(saturated(steps) * site_width + offset)
    }
}

/// `x / y` rounded toward zero.
pub(crate) fn div_toward_zero(x: i64, y: i64) -> (r: i64)
    requires
        -0x4000_0000_0000_0000 <= x <= 0x4000_0000_0000_0000,
        -0x4000_0000_0000_0000 <= y <= 0x4000_0000_0000_0000,
        y != 0,
    ensures
        r == trunc_div(x as int, y as int),
        -0x4000_0000_0000_0000 <= r <= 0x4000_0000_0000_0000,
{
    proof {
        let n = if x < 0 {
            -(x as int)
        } else {
            x as int
        };
        let d = if y < 0 {
            -(y as int)
        } else {
            y as int
        };
        assert(0 <= n / d <= n) by (nonlinear_arith)
            requires
                n >= 0,
                d >= 1,
        ;
    }
    if x >= 0 {
        if y > 0 {
            x / y
        } else {
            -(x / (-y))
        }
    } else {
        if y > 0 {
            -((-x) / y)
        } else {
            (-x) / (-y)
        }
    }
}

fn div_down(x: i64, y: i64) -> (r: i64)
    requires
        -0x2000_0000_0000_0000 <= x <= 0x2000_0000_0000_0000,
        -0x2000_0000_0000_0000 <= y <= 0x2000_0000_0000_0000,
        y != 0,
    ensures
        r == floor_div(x as int, y as int),
        -0x2000_0000_0000_0000 <= r <= 0x2000_0000_0000_0000,
{
    let (n, d): (i64, i64) = if y < 0 {
        (-x, -y)
    } else {
        (x, y)
    };
    proof {
        let a = n as int;
        let b = d as int;
        lemma_fundamental_div_mod(a, b);
        assert(-0x2000_0000_0000_0000 <= a / b <= 0x2000_0000_0000_0000) by (nonlinear_arith)
            requires
                -0x2000_0000_0000_0000 <= a <= 0x2000_0000_0000_0000,
                b >= 1,
        ;
        if a < 0 {
            let m = -a;
            lemma_fundamental_div_mod(m, b);
            let q = (m + b - 1) / b;
            lemma_fundamental_div_mod(m + b - 1, b);
            assert(a / b == -q) by (nonlinear_arith)
                requires
                    a == b * (a / b) + a % b,
                    0 <= a % b < b,
                    m + b - 1 == b * q + (m + b - 1) % b,
                    0 <= (m + b - 1) % b < b,
                    m == -a,
                    b >= 1,
            ;
        }
    }
    if n >= 0 {
        n / d
    } else {
        -((-n + d - 1) / d)
    }
}

fn saturate(x: i64) -> (r: i32)
    ensures
        r == saturated(x as int),
{
    if x < i32::MIN as i64 {
        i32::MIN
    } else if x > i32::MAX as i64 {
        i32::MAX
    } else {
        x as i32
    }
}

/// Can `x` be written in database units?
pub(crate) fn in_range(x: i64) -> (r: bool)
    ensures
        r == fits(x as int),
{
    i32::MIN as i64 <= x && x <= i32::MAX as i64
}

/// `c` on the manufacturing grid, whatever it is.
pub(crate) fn wide_on_mfg_grid(c: i64, grid: Option<i32>) -> (r: i64)
    requires
        -0x8_0000_0000 <= c <= 0x8_0000_0000,
    ensures
        r == on_mfg_grid(c as int, grid),
        -0x10_0000_0000 <= r <= 0x10_0000_0000,
{
    match grid {
        Some(g) => if g > 0 {
            let m: i64 = if c < 0 {
                -c
            } else {
                c
            };
            let s: i64 = g as i64;
            let steps: i64 = (2 * m + s) / (2 * s);
            proof {
                lemma_fundamental_div_mod(2 * m + s, 2 * s as int);
                let q = steps as int;
                assert(0 <= q * s <= m + s) by (nonlinear_arith)
                    requires
                        2 * m + s == 2 * s * q + (2 * m + s) % (2 * s as int),
                        0 <= (2 * m + s) % (2 * s as int),
                        q >= 0,
                        s >= 1,
                        m >= 0,
                ;
            }
            let near: i64 = steps * s;
            if c < 0 {
                -near
            } else {
                near
            }
        } else {
            c
        },
        None => c,
    }
}

/// Snap a coordinate to the manufacturing grid.
///
/// Nearest, not floor or ceil, and a no-op when the technology declares no grid. The core snap of
/// [`crate::rows::snap_core_lower_left`] rounds differently.
pub fn snap_to_mfg_grid(coord: i32, grid: Option<i32>) -> (r: i32)
    requires
        fits(on_mfg_grid(coord as int, grid)),
    ensures
        r == on_mfg_grid(coord as int, grid),
{
    wide_on_mfg_grid(coord as i64, grid) as i32
}

/// Can a rectangle be put on the manufacturing grid without leaving the database units?
pub fn can_snap(r: Rect, grid: Option<i32>) -> (ok: bool)
    ensures
        ok == area_on_mfg_grid(r@, grid).fits(),
{
    in_range(wide_on_mfg_grid(r.x_min as i64, grid)) && in_range(
        wide_on_mfg_grid(r.y_min as i64, grid),
    ) && in_range(wide_on_mfg_grid(r.x_max as i64, grid)) && in_range(
        wide_on_mfg_grid(r.y_max as i64, grid),
    )
}

/// A rectangle with every edge snapped to the manufacturing grid.
pub fn snap_rect_to_mfg_grid(r: Rect, grid: Option<i32>) -> (s: Rect)
    requires
        area_on_mfg_grid(r@, grid).fits(),
    ensures
        s@ == area_on_mfg_grid(r@, grid),
{
    Rect {
        x_min: snap_to_mfg_grid(r.x_min, grid),
        y_min: snap_to_mfg_grid(r.y_min, grid),
        x_max: snap_to_mfg_grid(r.x_max, grid),
        y_max: snap_to_mfg_grid(r.y_max, grid),
    }
}

/// `a / b` rounded up, for positive `b`.
pub fn div_ceil(a: i32, b: i32) -> (r: i32)
    requires
        b > 0,
    ensures
        r == ceil_div(a as int, b as int),
{
    let q: i64 = -div_down(-(a as i64), b as i64);
    proof {
        let x = a as int;
        let y = b as int;
        assert(-((-x) / y) <= i32::MAX && -((-x) / y) >= i32::MIN) by (nonlinear_arith)
            requires
                y >= 1,
                i32::MIN <= x <= i32::MAX,
        ;
    }
    q as i32
}

/// A coordinate of any size on the site grid.
pub(crate) fn wide_site_loc(x: i64, site_width: i32, down: bool, offset: i32) -> (r: i32)
    requires
        -0x1000_0000_0000_0000 <= x <= 0x1000_0000_0000_0000,
    ensures
        r == site_loc(x as int, site_width as int, down, offset as int),
{
    if site_width == 0 {
        return offset;
    }
    let d: i64 = x - offset as i64;
    let w: i64 = site_width as i64;
    let steps: i64 = if down {
        div_down(d, w)
    } else {
        -div_down(-d, w)
    };
    let whole: i64 = saturate(steps) as i64;
    proof {
        let a = whole as int;
        let b = w as int;
        assert(-0x4000_0000_0000_0000 <= a * b <= 0x4000_0000_0000_0000) by (nonlinear_arith)
            requires
                -0x8000_0000 <= a <= 0x8000_0000,
                -0x8000_0000 <= b <= 0x8000_0000,
        ;
    }
    saturate(whole * w + offset as i64)
}

/// Snap a coordinate to the site grid.
///
/// `at_left_from_macro` selects the rounding: down when set, up when not. A domain box passes
/// `false` for a minimum and `true` for a maximum, which is how it is snapped inward.
pub fn make_site_loc(x: i32, site_width: i32, at_left_from_macro: bool, offset: i32) -> (r: i32)
    requires
        fits(x - offset),
    ensures
        r == site_loc(x as int, site_width as int, at_left_from_macro, offset as int),
{
    wide_site_loc(x as i64, site_width, at_left_from_macro, offset)
}

proof fn lemma_floor_step(x: int, step: int)
    requires
        step > 0,
    ensures
        x - step < floor_div(x, step) * step <= x,
        x <= ceil_div(x, step) * step < x + step,
{
    lemma_fundamental_div_mod(x, step);
    lemma_fundamental_div_mod(-x, step);
    let p = x / step;
    let q = (-x) / step;
    assert(x - step < p * step <= x) by (nonlinear_arith)
        requires
            x == step * p + x % step,
            0 <= x % step < step,
    ;
    assert(x <= (-q) * step < x + step) by (nonlinear_arith)
        requires
            -x == step * q + (-x) % step,
            0 <= (-x) % step < step,
    ;
}

/// A coordinate moves to a grid point less than one step away: never up when rounded down, never
/// down when rounded up. Rounding up stops at the end of the 32-bit range.
pub proof fn law_site_loc_rounds_one_way(x: int, step: int)
    requires
        step > 0,
        fits(x),
    ensures
        x - step < site_loc(x, step, true, 0) <= x,
        x <= site_loc(x, step, false, 0) < x + step,
        fits(ceil_div(x, step) * step) ==> site_loc(x, step, false, 0) == ceil_div(x, step) * step,
        fits(floor_div(x, step) * step) ==> site_loc(x, step, true, 0) == floor_div(x, step)
            * step,
{
    lemma_floor_step(x, step);
    let p = floor_div(x, step);
    let q = ceil_div(x, step);
    assert(fits(p) && fits(q)) by (nonlinear_arith)
        requires
            x - step < p * step <= x,
            x <= q * step < x + step,
            step >= 1,
            i32::MIN <= x <= i32::MAX,
    ;
}

/// Rounding up never moves a coordinate of any size down, but for the end of the 32-bit range.
pub proof fn lemma_site_loc_above(x: int, step: int)
    requires
        step > 0,
        site_loc(x, step, false, 0) < i32::MAX,
    ensures
        site_loc(x, step, false, 0) >= x,
{
    lemma_floor_step(x, step);
    let q = ceil_div(x, step);
    if q > i32::MAX {
        assert(i32::MAX * step >= i32::MAX) by (nonlinear_arith)
            requires
                step >= 1,
        ;
    } else if q < i32::MIN {
        assert(q * step < i32::MIN) by (nonlinear_arith)
            requires
                step >= 1,
                q < i32::MIN,
        ;
    }
}

/// The nearest grid point is at most half a step away, and halfway goes away from zero.
pub proof fn law_the_manufacturing_grid_rounds_to_nearest(c: int, g: int)
    requires
        g > 0,
    ensures
        nearest_multiple(c, g) % g == 0,
        -g <= 2 * (nearest_multiple(c, g) - c) <= g,
        2 * (nearest_multiple(c, g) - c) == g ==> c >= 0,
        2 * (nearest_multiple(c, g) - c) == -g ==> c < 0,
        c % g == 0 ==> nearest_multiple(c, g) == c,
{
    let m = if c >= 0 {
        c
    } else {
        -c
    };
    let q = (2 * m + g) / (2 * g);
    lemma_fundamental_div_mod(2 * m + g, 2 * g);
    let t = (2 * m + g) % (2 * g);
    assert(2 * (q * g) == 2 * m + g - t) by (nonlinear_arith)
        requires
            2 * m + g == (2 * g) * q + t,
    ;
    lemma_fundamental_div_mod_converse(q * g, g, q, 0);
    assert(-(q * g) == (-q) * g) by (nonlinear_arith);
    lemma_fundamental_div_mod_converse((-q) * g, g, -q, 0);
    if c % g == 0 {
        let k = c / g;
        lemma_fundamental_div_mod(c, g);
        let a = if c >= 0 {
            k
        } else {
            -k
        };
        assert(m == a * g) by (nonlinear_arith)
            requires
                c == g * k,
                c >= 0 && m == c && a == k || c < 0 && m == -c && a == -k,
        ;
        assert(2 * m + g == a * (2 * g) + g) by (nonlinear_arith)
            requires
                m == a * g,
        ;
        lemma_fundamental_div_mod_converse(2 * m + g, 2 * g, a, g);
    }
}

/// A rectangle on the manufacturing grid stays where it is when it is snapped again.
pub proof fn law_snapping_again_changes_nothing(a: Area, grid: Option<i32>)
    ensures
        area_on_mfg_grid(area_on_mfg_grid(a, grid), grid) == area_on_mfg_grid(a, grid),
{
    if let Some(g) = grid {
        if g > 0 {
            law_the_manufacturing_grid_rounds_to_nearest(a.x_min, g as int);
            law_the_manufacturing_grid_rounds_to_nearest(a.y_min, g as int);
            law_the_manufacturing_grid_rounds_to_nearest(a.x_max, g as int);
            law_the_manufacturing_grid_rounds_to_nearest(a.y_max, g as int);
            law_the_manufacturing_grid_rounds_to_nearest(on_mfg_grid(a.x_min, grid), g as int);
            law_the_manufacturing_grid_rounds_to_nearest(on_mfg_grid(a.y_min, grid), g as int);
            law_the_manufacturing_grid_rounds_to_nearest(on_mfg_grid(a.x_max, grid), g as int);
            law_the_manufacturing_grid_rounds_to_nearest(on_mfg_grid(a.y_max, grid), g as int);
        }
    }
}

/// A coordinate is put on the manufacturing grid at the nearest of its points, away from zero where
/// two are as near, and stays where it is where the technology declares no grid.
pub proof fn law_the_nearest_grid_point_is_taken(c: int, grid: Option<i32>)
    ensures
        grid is None ==> on_mfg_grid(c, grid) == c,
        grid matches Some(g) ==> {
            let r = on_mfg_grid(c, grid);
            &&& g <= 0 ==> r == c
            &&& g > 0 ==> {
                &&& r % g as int == 0
                &&& -g <= 2 * (r - c) <= g
                &&& 2 * (r - c) == g ==> c >= 0
                &&& 2 * (r - c) == -g ==> c < 0
            }
        },
{
    if let Some(g) = grid {
        if g > 0 {
            law_the_manufacturing_grid_rounds_to_nearest(c, g as int);
        }
    }
}

/// A rectangle is put on the manufacturing grid edge by edge.
pub proof fn law_every_edge_is_snapped_by_itself(a: Area, grid: Option<i32>)
    ensures
        area_on_mfg_grid(a, grid).x_min == on_mfg_grid(a.x_min, grid),
        area_on_mfg_grid(a, grid).y_min == on_mfg_grid(a.y_min, grid),
        area_on_mfg_grid(a, grid).x_max == on_mfg_grid(a.x_max, grid),
        area_on_mfg_grid(a, grid).y_max == on_mfg_grid(a.y_max, grid),
{
}

/// A rectangle is empty where no unit square lies in it.
pub proof fn law_an_empty_rectangle_holds_no_square(a: Area)
    ensures
        a.is_empty() <==> forall|x: int, y: int| !#[trigger] a.has_square(x, y),
{
    if !a.is_empty() {
        assert(a.has_square(a.x_min, a.y_min));
    }
}

impl Area {
    /// The unit square right of `x` and above `y` lies in the rectangle.
    pub open spec fn has_square(self, x: int, y: int) -> bool {
        self.x_min <= x < self.x_max && self.y_min <= y < self.y_max
    }

    /// The point lies in the rectangle or on its edge.
    pub open spec fn has_point(self, x: int, y: int) -> bool {
        self.x_min <= x <= self.x_max && self.y_min <= y <= self.y_max
    }
}

/// A rectangle contains another that has a point exactly where it has every point of it. An
/// inverted one is looked at edge by edge all the same: no edge may lie outside on its own side.
pub proof fn law_containing_is_having_every_point(a: Area, b: Area)
    ensures
        b.x_min <= b.x_max && b.y_min <= b.y_max ==> (a.contains(b) <==> forall|x: int, y: int|
            #[trigger] b.has_point(x, y) ==> a.has_point(x, y)),
        b.x_min < a.x_min || b.y_min < a.y_min || a.x_max < b.x_max || a.y_max < b.y_max
            <==> !a.contains(b),
{
    if b.x_min <= b.x_max && b.y_min <= b.y_max {
        assert(b.has_point(b.x_min, b.y_min));
        assert(b.has_point(b.x_max, b.y_max));
    }
    if b.x_min <= b.x_max && b.y_min <= b.y_max && forall|x: int, y: int|
        #[trigger] b.has_point(x, y) ==> a.has_point(x, y) {
        assert(a.has_point(b.x_min, b.y_min));
        assert(a.has_point(b.x_max, b.y_max));
    }
}

/// A rectangle is as wide as its sides are apart and as high as its bottom and top.
pub proof fn law_extents_lie_between_the_edges(a: Area)
    ensures
        a.x_min + a.dx() == a.x_max,
        a.y_min + a.dy() == a.y_max,
{
}

/// Rounding a quotient up gives the least whole number that is not below it.
pub proof fn law_rounding_up_gives_the_least_bound(a: int, b: int)
    requires
        b > 0,
    ensures
        (ceil_div(a, b) - 1) * b < a <= ceil_div(a, b) * b,
{
    lemma_floor_step(a, b);
    let q = ceil_div(a, b);
    assert((q - 1) * b == q * b - b) by (nonlinear_arith);
}

/// A coordinate is put on the grid that starts at `offset`: at the last grid point that is not
/// above it, or at the first that is not below it. A grid without a step has one point. Grid
/// points beyond the 32-bit range are left out.
pub proof fn law_a_grid_may_start_anywhere(x: int, step: int, offset: int, k: int)
    ensures
        site_loc(x, 0, true, offset) == offset && site_loc(x, 0, false, offset) == offset,
        step > 0 && fits(k) && fits(k * step + offset) && k * step + offset <= x < k * step + offset
            + step ==> site_loc(x, step, true, offset) == k * step + offset,
        step > 0 && fits(k) && fits(k * step + offset) && k * step + offset - step < x <= k * step
            + offset ==> site_loc(x, step, false, offset) == k * step + offset,
{
    if step > 0 {
        let d = x - offset;
        if k * step <= d < k * step + step {
            lemma_fundamental_div_mod_converse(d, step, k, d - k * step);
        }
        if k * step - step < d <= k * step {
            assert(-d == (-k) * step + (k * step - d)) by (nonlinear_arith);
            lemma_fundamental_div_mod_converse(-d, step, -k, k * step - d);
        }
    }
}

/// `n` steps of `step` are as many as fit into `length`, or as many as a negative length lacks.
pub open spec fn are_whole_steps(n: int, step: int, length: int) -> bool {
    &&& length >= 0 ==> n >= 0 && n * step <= length < (n + 1) * step
    &&& length < 0 ==> n <= 0 && (n - 1) * step < length <= n * step
}

/// Rounding a quotient toward zero gives whole steps.
pub proof fn lemma_whole_steps(length: int, step: int)
    requires
        step > 0,
    ensures
        are_whole_steps(trunc_div(length, step), step, length),
{
    let n = trunc_div(length, step);
    if length >= 0 {
        lemma_fundamental_div_mod(length, step);
        assert(n >= 0 && n * step <= length < (n + 1) * step) by (nonlinear_arith)
            requires
                length == step * n + length % step,
                0 <= length % step < step,
                length >= 0,
                step > 0,
        ;
    } else {
        let m = (-length) / step;
        lemma_fundamental_div_mod(-length, step);
        assert(n == -m);
        assert(n <= 0 && (n - 1) * step < length <= n * step) by (nonlinear_arith)
            requires
                -length == step * m + (-length) % step,
                0 <= (-length) % step < step,
                n == -m,
                length < 0,
                step > 0,
        ;
    }
}

/// `x`, or the end of the range from `low` to `high` that it lies beyond.
pub open spec fn within(x: int, low: int, high: int) -> int {
    if x > high {
        high
    } else if x < low {
        low
    } else {
        x
    }
}

/// A grid ends where the 32-bit range ends, in its step count and in its points, whichever way its
/// steps go: the count `q` is the last that does not pass the coordinate, or the first that does
/// not fall short of it.
pub proof fn law_a_grid_ends_with_the_range(x: int, step: int, offset: int, q: int)
    requires
        step != 0,
    ensures
        ({
            let low: int = -0x8000_0000;
            let high: int = 0x7fff_ffff;
            let point = within(within(q, low, high) * step + offset, low, high);
            let a = q * step + offset;
            &&& step > 0 && a <= x < a + step ==> site_loc(x, step, true, offset) == point
            &&& step > 0 && a - step < x <= a ==> site_loc(x, step, false, offset) == point
            &&& step < 0 && a + step < x <= a ==> site_loc(x, step, true, offset) == point
            &&& step < 0 && a <= x < a - step ==> site_loc(x, step, false, offset) == point
        }),
{
    let d = x - offset;
    let a = q * step;
    if step > 0 {
        if a <= d < a + step {
            lemma_fundamental_div_mod_converse(d, step, q, d - a);
        }
        if a - step < d <= a {
            assert(-d == (-q) * step + (a - d)) by (nonlinear_arith)
                requires
                    a == q * step,
            ;
            lemma_fundamental_div_mod_converse(-d, step, -q, a - d);
        }
    } else {
        let s = -step;
        if a + step < d <= a {
            assert(-d == q * s + (a - d)) by (nonlinear_arith)
                requires
                    a == q * step,
                    s == -step,
            ;
            lemma_fundamental_div_mod_converse(-d, s, q, a - d);
        }
        if a <= d < a - step {
            assert(d == (-q) * s + (d - a)) by (nonlinear_arith)
                requires
                    a == q * step,
                    s == -step,
            ;
            lemma_fundamental_div_mod_converse(d, s, -q, d - a);
        }
    }
}

/// A quotient by a negative number is rounded up as well.
pub proof fn law_rounding_up_by_a_negative_number(a: int, b: int)
    requires
        b < 0,
    ensures
        ceil_div(a, b) * b <= a < (ceil_div(a, b) - 1) * b,
{
    let q = a / (-b);
    lemma_fundamental_div_mod(a, -b);
    assert((-q) * b <= a < ((-q) - 1) * b) by (nonlinear_arith)
        requires
            a == (-b) * q + a % (-b),
            0 <= a % (-b) < -b,
    ;
}

/// A rectangle is known by its four edges, each as it is stored.
pub proof fn law_a_rectangle_is_its_edges(r: Rect)
    ensures
        r@.x_min == r.x_min && r@.y_min == r.y_min,
        r@.x_max == r.x_max && r@.y_max == r.y_max,
{
}

} // verus!
