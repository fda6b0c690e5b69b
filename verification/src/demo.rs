//! A varied starting scene: ground, a water basin, a lava pit, a turret on a
//! metal post and a campfire.

use vstd::prelude::*;
use crate::element::{Element, spec_natural_temp};
use crate::world::{Cell, World, cell_index, fresh_cell, in_disc, in_grid, H, W};

verus! {

/// Is (x, y) in the rectangle `x0 <= x < x1`, `y0 <= y < y1`?
pub open spec fn in_rect(x: int, y: int, x0: int, x1: int, y0: int, y1: int) -> bool {
    x0 <= x < x1 && y0 <= y < y1
}

/// The temperature a cell holds after a fresh `el` is placed on it at `t`.
pub open spec fn placed_temp(el: Element, t: i32) -> i32 {
    match spec_natural_temp(el) {
        Some(v) => v,
        None => t,
    }
}

/// Fills the rectangle `x0 <= x < x1`, `y0 <= y < y1` with fresh `el`,
/// column by column.
fn fill(world: &mut World, x0: i32, x1: i32, y0: i32, y1: i32, el: Element)
    requires
        old(world).wf(),
        0 <= x0 <= x1 <= W,
        0 <= y0 <= y1 <= H,
    ensures
        final(world).wf(),
        final(world).frame == old(world).frame,
        forall|x: int, y: int|
            #![trigger cell_index(x, y)]
            in_grid(x, y) ==> if in_rect(x, y, x0 as int, x1 as int, y0 as int, y1 as int) {
                fresh_cell(final(world).cells@[cell_index(x, y)], el, 0)
                    && final(world).temp@[cell_index(x, y)] == placed_temp(
                    el,
                    old(world).temp@[cell_index(x, y)],
                )
            } else {
                final(world).cells@[cell_index(x, y)] == old(world).cells@[cell_index(x, y)]
                    && final(world).temp@[cell_index(x, y)] == old(world).temp@[cell_index(x, y)]
            },
{
    let mut x = x0;
    while x < x1
        invariant
            0 <= x0 <= x <= x1 <= W,
            0 <= y0 <= y1 <= H,
            world.wf(),
            world.frame == old(world).frame,
            forall|px: int, py: int|
                #![trigger cell_index(px, py)]
                in_grid(px, py) ==> if in_rect(px, py, x0 as int, x as int, y0 as int, y1 as int) {
                    fresh_cell(world.cells@[cell_index(px, py)], el, 0)
                        && world.temp@[cell_index(px, py)] == placed_temp(
                        el,
                        old(world).temp@[cell_index(px, py)],
                    )
                } else {
                    world.cells@[cell_index(px, py)] == old(world).cells@[cell_index(px, py)]
                        && world.temp@[cell_index(px, py)] == old(world).temp@[cell_index(
                        px,
                        py,
                    )]
                },
        decreases x1 - x,
    {
        let mut y = y0;
        while y < y1
            invariant
                0 <= x0 <= x < x1 <= W,
                0 <= y0 <= y <= y1 <= H,
                world.wf(),
                world.frame == old(world).frame,
                forall|px: int, py: int|
                    #![trigger cell_index(px, py)]
                    in_grid(px, py) ==> if in_rect(px, py, x0 as int, x as int, y0 as int, y1 as int)
                        || in_rect(px, py, x as int, x + 1, y0 as int, y as int) {
                        fresh_cell(world.cells@[cell_index(px, py)], el, 0)
                            && world.temp@[cell_index(px, py)] == placed_temp(
                            el,
                            old(world).temp@[cell_index(px, py)],
                        )
                    } else {
                        world.cells@[cell_index(px, py)] == old(world).cells@[cell_index(px, py)]
                            && world.temp@[cell_index(px, py)] == old(world).temp@[cell_index(
                            px,
                            py,
                        )]
                    },
            decreases y1 - y,
        {
            world.spawn(x, y, el, 0);
            y = y + 1;
        }
        x = x + 1;
    }
}

/// Inside the campfire disc of radius 4 around (170, 196)?
pub open spec fn campfire(x: int, y: int) -> bool {
    in_disc(x - 170, y - 196, 4)
}

/// The element the demo scene leaves at (x, y) over a cell that held `before`.
pub open spec fn demo_el(x: int, y: int, before: Element) -> Element {
    if 165 <= x < 176 && y == 197 {
        Element::Wood
    } else if y == 198 || y == 199 {
        Element::Wall
    } else if campfire(x, y) {
        if before == Element::Wall {
            Element::Wall
        } else {
            Element::Fire
        }
    } else if (x == 18 || x == 70) && 176 <= y < 198 {
        Element::Stone
    } else if 19 <= x < 70 && 180 <= y < 198 {
        Element::Water
    } else if (x == 232 || x == 300) && 182 <= y < 198 {
        Element::Stone
    } else if 233 <= x < 300 && 186 <= y < 198 {
        Element::Lava
    } else if x == 90 && 182 <= y < 198 {
        Element::Metal
    } else if x == 91 && y == 184 {
        if before == Element::Wall {
            Element::Wall
        } else {
            Element::Gun
        }
    } else {
        before
    }
}

/// The temperature the demo scene leaves at (x, y) over a cell that held
/// `before` at `t`: the campfire burns at 720 degrees, the lava at 1200.
pub open spec fn demo_temp(x: int, y: int, before: Element, t: i32) -> i32 {
    if y == 198 || y == 199 {
        t
    } else if campfire(x, y) && before != Element::Wall {
        720_000
    } else if 233 <= x < 300 && 186 <= y < 198 {
        1_200_000
    } else {
        t
    }
}

/// Does the demo scene write a fresh cell at (x, y) over a cell that held
/// `before`? Its rectangles are written whole; the campfire and the turret
/// leave walls alone.
pub open spec fn demo_written(x: int, y: int, before: Element) -> bool {
    ||| 165 <= x < 176 && y == 197
    ||| y == 198 || y == 199
    ||| campfire(x, y) && before != Element::Wall
    ||| (x == 18 || x == 70) && 176 <= y < 198
    ||| 19 <= x < 70 && 180 <= y < 198
    ||| (x == 232 || x == 300) && 182 <= y < 198
    ||| 233 <= x < 300 && 186 <= y < 198
    ||| x == 90 && 182 <= y < 198
    ||| x == 91 && y == 184 && before != Element::Wall
}

/// A freshly written demo cell: no charge, marked as moved, and a lifetime of
/// zero, except campfire flames that burn for 40 to 89 frames.
pub open spec fn demo_fresh(c: Cell) -> bool {
    &&& fresh_cell(c, c.el, c.life)
    &&& if c.el == Element::Fire {
        40 <= c.life < 90
    } else {
        c.life == 0
    }
}

/// Seeds the demo scene (the headless showcase's starting point).
pub fn setup_demo(world: &mut World)
    requires
        old(world).wf(),
    ensures
        final(world).wf(),
        final(world).frame == old(world).frame,
        forall|x: int, y: int|
            #![trigger cell_index(x, y)]
            in_grid(x, y) ==> final(world).cells@[cell_index(x, y)].el == demo_el(
                x,
                y,
                old(world).cells@[cell_index(x, y)].el,
            ) && final(world).temp@[cell_index(x, y)] == demo_temp(
                x,
                y,
                old(world).cells@[cell_index(x, y)].el,
                old(world).temp@[cell_index(x, y)],
            ) && if demo_written(x, y, old(world).cells@[cell_index(x, y)].el) {
                demo_fresh(final(world).cells@[cell_index(x, y)])
            } else {
                final(world).cells@[cell_index(x, y)] == old(world).cells@[cell_index(x, y)]
            },
{
    let w: i32 = 320;
    let h: i32 = 200;
    // ground
    fill(world, 0, w, h - 2, h, Element::Wall);
    let ghost s1 = *world;
    // a water pool on the left, held in a stone basin
    fill(world, 18, 19, h - 24, h - 2, Element::Stone);
    let ghost s2 = *world;
    fill(world, 70, 71, h - 24, h - 2, Element::Stone);
    let ghost s3 = *world;
    fill(world, 19, 70, h - 20, h - 2, Element::Water);
    let ghost s4 = *world;
    // a lava pit on the right
    fill(world, 232, 233, h - 18, h - 2, Element::Stone);
    let ghost s5 = *world;
    fill(world, 300, 301, h - 18, h - 2, Element::Stone);
    let ghost s6 = *world;
    fill(world, 233, 300, h - 14, h - 2, Element::Lava);
    let ghost s7 = *world;
    // a turret on a metal post
    fill(world, 90, 91, h - 18, h - 2, Element::Metal);
    let ghost s8 = *world;
    world.paint(91, h - 16, 0, Element::Gun);
    let ghost s9 = *world;
    // a campfire hazard on the floor
    world.paint(170, h - 4, 4, Element::Fire);
    let ghost s10 = *world;
    fill(world, 165, 176, h - 3, h - 2, Element::Wood);
    assert forall|x: int, y: int|
        #![trigger cell_index(x, y)]
        in_grid(x, y) implies world.cells@[cell_index(x, y)].el == demo_el(
            x,
            y,
            old(world).cells@[cell_index(x, y)].el,
        ) && world.temp@[cell_index(x, y)] == demo_temp(
            x,
            y,
            old(world).cells@[cell_index(x, y)].el,
            old(world).temp@[cell_index(x, y)],
        ) && if demo_written(x, y, old(world).cells@[cell_index(x, y)].el) {
            demo_fresh(world.cells@[cell_index(x, y)])
        } else {
            world.cells@[cell_index(x, y)] == old(world).cells@[cell_index(x, y)]
        } by {
        let i = cell_index(x, y);
        assert(s1.cells@[i] == s1.cells@[i]);
        assert(s9.cells@[i] == s9.cells@[i]);
    }
}

} // verus!
