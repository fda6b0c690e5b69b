//! Interaction state of the side panel and the brush: what is selected, the
//! brush size, pause, the spark tool, and how a mouse drag becomes a stroke.

use vstd::prelude::*;
use crate::element::Element;

verus! {

/// Side-panel and brush state.
pub struct Ui {
    pub selected: Element,
    pub brush: i32,
    pub paused: bool,
    /// "spark" mode: left-click injects charge instead of painting.
    pub spark_tool: bool,
}

/// What a click in the side panel landed on.
#[derive(Clone, Copy, PartialEq, Eq, Debug, Structural)]
pub enum PanelTarget {
    /// the palette button of an element
    Swatch(Element),
    /// the spark tool button
    Spark,
    /// anywhere else in the panel
    Elsewhere,
}

/// Largest brush radius.
pub const MAX_BRUSH: i32 = 40;

/// Rust's integer division, rounding toward zero.
pub open spec fn div_toward_zero(a: int, b: int) -> int {
    if a >= 0 {
        a / b
    } else {
        -((-a) / b)
    }
}

/// |a|
pub open spec fn abs(a: int) -> int {
    if a >= 0 {
        a
    } else {
        -a
    }
}

/// Number of steps a stroke from (px, py) to (gx, gy) takes: the longer axis,
/// at least one.
pub open spec fn stroke_steps(px: int, py: int, gx: int, gy: int) -> int {
    let a = abs(gx - px);
    let b = abs(gy - py);
    let m = if a >= b {
        a
    } else {
        b
    };
    if m >= 1 {
        m
    } else {
        1
    }
}

/// The `s`-th point of the stroke from (px, py) to (gx, gy).
pub open spec fn stroke_point(px: int, py: int, gx: int, gy: int, s: int) -> (i32, i32) {
    let n = stroke_steps(px, py, gx, gy);
    (
        (px + div_toward_zero((gx - px) * s, n)) as i32,
        (py + div_toward_zero((gy - py) * s, n)) as i32,
    )
}

/// The stroke's arithmetic stays within `i32`: both offsets fit (with room to
/// take their magnitude), and so do their products with the step count.
pub open spec fn stroke_fits(px: i32, py: i32, gx: i32, gy: i32) -> bool {
    let n = stroke_steps(px as int, py as int, gx as int, gy as int);
    &&& i32::MIN < gx - px <= i32::MAX
    &&& i32::MIN < gy - py <= i32::MAX
    &&& i32::MIN <= (gx - px) * n <= i32::MAX
    &&& i32::MIN <= (gy - py) * n <= i32::MAX
}

/// The `s`-th offset of a stroke of `n` steps along an axis moved by `d`
/// stays between 0 and `d`, and its product fits wherever the full one does.
proof fn lemma_stroke_term(d: int, s: int, n: int)
    requires
        1 <= n,
        0 <= s <= n,
        i32::MIN <= d * n <= i32::MAX,
    ensures
        i32::MIN <= d * s <= i32::MAX,
        d >= 0 ==> 0 <= div_toward_zero(d * s, n) <= d,
        d < 0 ==> d <= div_toward_zero(d * s, n) <= 0,
{
    if d >= 0 {
        assert(0 <= d * s <= d * n) by (nonlinear_arith)
            requires
                d >= 0,
                0 <= s <= n,
        ;
        vstd::arithmetic::div_mod::lemma_div_is_ordered(d * s, d * n, n);
        vstd::arithmetic::div_mod::lemma_div_multiples_vanish(d, n);
        vstd::arithmetic::div_mod::lemma_div_pos_is_pos(d * s, n);
        assert((d * n) / n == d) by {
            vstd::arithmetic::mul::lemma_mul_is_commutative(d, n);
        }
    } else {
        let e = -d;
        assert(0 <= e * s <= e * n) by (nonlinear_arith)
            requires
                e >= 0,
                0 <= s <= n,
        ;
        assert(d * s == -(e * s)) by (nonlinear_arith)
            requires
                e == -d,
        ;
        assert(d * n == -(e * n)) by (nonlinear_arith)
            requires
                e == -d,
        ;
        vstd::arithmetic::div_mod::lemma_div_is_ordered(e * s, e * n, n);
        vstd::arithmetic::div_mod::lemma_div_pos_is_pos(e * s, n);
        assert((e * n) / n == e) by {
            vstd::arithmetic::div_mod::lemma_div_multiples_vanish(e, n);
            vstd::arithmetic::mul::lemma_mul_is_commutative(e, n);
        }
    }
}

impl Ui {
    /// Fresh interaction state: sand selected, brush radius 4, running.
    pub fn new() -> (ui: Ui)
        ensures
            ui.selected == Element::Sand,
            ui.brush == 4,
            !ui.paused,
            !ui.spark_tool,
    {
        Ui { selected: Element::Sand, brush: 4, paused: false, spark_tool: false }
    }

    /// Handles a click in the panel: a palette button selects its element
    /// (leaving spark mode), the spark button enters spark mode; the panel
    /// swallows every click.
    pub fn click_panel(&mut self, target: PanelTarget) -> (consumed: bool)
        ensures
            consumed,
            final(self).brush == old(self).brush,
            final(self).paused == old(self).paused,
            match target {
                PanelTarget::Swatch(el) => final(self).selected == el && !final(self).spark_tool,
                PanelTarget::Spark => final(self).selected == old(self).selected
                    && final(self).spark_tool,
                PanelTarget::Elsewhere => final(self).selected == old(self).selected
                    && final(self).spark_tool == old(self).spark_tool,
            },
    {
        match target {
            PanelTarget::Swatch(el) => {
                self.selected = el;
                self.spark_tool = false;
            },
            PanelTarget::Spark => {
                self.spark_tool = true;
            },
            PanelTarget::Elsewhere => {},
        }
        true
    }

    /// The mouse wheel grows (`up`) or shrinks the brush by one, within 0..=40.
    pub fn adjust_brush(&mut self, up: bool)
        requires
            up ==> old(self).brush < i32::MAX,
            !up ==> old(self).brush > i32::MIN,
        ensures
            final(self).selected == old(self).selected,
            final(self).paused == old(self).paused,
            final(self).spark_tool == old(self).spark_tool,
            ({
                let b = if up {
                    old(self).brush + 1
                } else {
                    old(self).brush - 1
                };
                final(self).brush == if b < 0 {
                    0
                } else if b > MAX_BRUSH {
                    MAX_BRUSH as int
                } else {
                    b
                }
            }),
    {
        let b = self.brush + if up {
            1
        } else {
            -1
        };
        self.brush = if b < 0 {
            0
        } else if b > MAX_BRUSH {
            MAX_BRUSH
        } else {
            b
        };
    }
}

/// The grid points of a drag from the previous mouse cell (px, py) to the
/// current one (gx, gy), so that fast drags draw a continuous stroke.
pub fn stroke_points(px: i32, py: i32, gx: i32, gy: i32) -> (pts: Vec<(i32, i32)>)
    requires
        stroke_fits(px, py, gx, gy),
    ensures
        pts@.len() == stroke_steps(px as int, py as int, gx as int, gy as int) + 1,
        forall|s: int|
            0 <= s < pts@.len() ==> #[trigger] pts@[s] == stroke_point(
                px as int,
                py as int,
                gx as int,
                gy as int,
                s,
            ),
{
    let ax = if gx >= px {
        gx - px
    } else {
        px - gx
    };
    let ay = if gy >= py {
        gy - py
    } else {
        py - gy
    };
    let m = if ax >= ay {
        ax
    } else {
        ay
    };
    let steps = if m >= 1 {
        m
    } else {
        1
    };
    proof {
        let n = steps as int;
        if n == ax && n > 1 {
            assert(n * n <= 0x8000_0000) by (nonlinear_arith)
                requires
                    n == ax,
                    ax == gx - px || ax == px - gx,
                    i32::MIN <= (gx - px) * n <= i32::MAX,
                    n >= 0,
            ;
        }
        if n == ay && n > 1 {
            assert(n * n <= 0x8000_0000) by (nonlinear_arith)
                requires
                    n == ay,
                    ay == gy - py || ay == py - gy,
                    i32::MIN <= (gy - py) * n <= i32::MAX,
                    n >= 0,
            ;
        }
        assert(n <= 46341) by (nonlinear_arith)
            requires
                n <= 1 || n * n <= 0x8000_0000,
                n >= 1,
        ;
    }
    let mut pts: Vec<(i32, i32)> = Vec::new();
    let mut s: i32 = 0;
    while s <= steps
        invariant
            stroke_fits(px, py, gx, gy),
            steps == stroke_steps(px as int, py as int, gx as int, gy as int),
            1 <= steps <= 46341,
            0 <= s <= steps + 1,
            pts@.len() == s,
            forall|k: int|
                0 <= k < s ==> #[trigger] pts@[k] == stroke_point(
                    px as int,
                    py as int,
                    gx as int,
                    gy as int,
                    k,
                ),
        decreases steps - s + 1,
    {
        proof {
            lemma_stroke_term(gx - px, s as int, steps as int);
            lemma_stroke_term(gy - py, s as int, steps as int);
        }
        let x = px + (gx - px) * s / steps;
        let y = py + (gy - py) * s / steps;
        pts.push((x, y));
        s = s + 1;
    }
    pts
}

} // verus!
