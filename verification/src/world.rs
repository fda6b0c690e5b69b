//! The simulation world: a grid of cells plus a parallel temperature field.
//!
//! Each `step()` runs four passes:
//!   1. clear the per-frame "moved" flags
//!   2. propagate electrical charge through conductors (one cell per frame)
//!   3. movement + chemistry, scanned bottom-up with alternating x direction
//!   4. heat: emit from hot sources, diffuse, then apply phase changes
//!
//! Temperatures are fixed-point, in thousandths of a degree Celsius.

use vstd::prelude::*;
use crate::element::{
    Cat, Element, conductive, dissolvable, is_fluid, natural_temp, props, spec_conductive,
    spec_dissolvable, spec_is_fluid, spec_natural_temp, spec_props,
};
use crate::behaviour::{scan_link, scan_pass, scan_trace};
use crate::energy::{H_I32, W_I32, charge_step, heat_step};
use crate::rng::gen_range;

verus! {

/// Grid width in cells.
pub const W: usize = 320;
/// Grid height in cells.
pub const H: usize = 200;
/// Number of cells in the grid.
pub const CELLS: usize = W * H;

/// Ambient temperature (22 degrees).
pub const AMBIENT: i32 = 22_000;
/// Coldest temperature anything in the world reaches (-18 degrees).
pub const TEMP_MIN: i32 = -18_000;
/// Hottest temperature anything in the world reaches (1200 degrees).
pub const TEMP_MAX: i32 = 1_200_000;

/// One grid cell.
#[derive(Clone, Copy, PartialEq, Eq, Structural)]
pub struct Cell {
    pub el: Element,
    /// colour jitter seed
    pub ra: u8,
    /// generic countdown (fire/smoke lifetime, ember fuel, ...)
    pub life: u8,
    /// electrical charge level
    pub charge: u8,
    pub moved: bool,
}

impl Cell {
    pub open spec fn spec_empty() -> Cell {
        Cell { el: Element::Empty, ra: 0, life: 0, charge: 0, moved: false }
    }

    /// The empty cell.
    #[verifier::when_used_as_spec(spec_empty)]
    pub fn empty() -> (c: Cell)
        ensures
            c == Cell::spec_empty(),
    {
        Cell { el: Element::Empty, ra: 0, life: 0, charge: 0, moved: false }
    }
}

/// The simulation state.
pub struct World {
    pub cells: Vec<Cell>,
    pub temp: Vec<i32>,
    pub frame: u64,
}

/// Is (x, y) inside the grid?
pub open spec fn in_grid(x: int, y: int) -> bool {
    0 <= x < W as int && 0 <= y < H as int
}

/// Row-major position of (x, y).
pub open spec fn cell_index(x: int, y: int) -> int {
    y * (W as int) + x
}

/// Is `t` within the temperature range the world keeps?
pub open spec fn temp_ok(t: i32) -> bool {
    TEMP_MIN <= t <= TEMP_MAX
}

/// Every temperature of the field is within range.
pub open spec fn temps_ok(t: Seq<i32>) -> bool {
    forall|i: int| 0 <= i < t.len() ==> temp_ok(#[trigger] t[i])
}

/// A freshly placed cell of `el` with lifetime `life` (its colour seed is chance).
pub open spec fn fresh_cell(c: Cell, el: Element, life: u8) -> bool {
    c.el == el && c.life == life && c.charge == 0 && c.moved && c.ra < 255
}

/// The field after placing `el` at `i`: its natural temperature, if it has one.
pub open spec fn seeded(t: Seq<i32>, i: int, el: Element) -> Seq<i32> {
    match spec_natural_temp(el) {
        Some(v) => t.update(i, v),
        None => t,
    }
}

/// (`nc`, `nt`) is (`oc`, `ot`) with a fresh `el` of lifetime `life` placed at `i`.
pub open spec fn spawned_at(
    oc: Seq<Cell>,
    ot: Seq<i32>,
    nc: Seq<Cell>,
    nt: Seq<i32>,
    i: int,
    el: Element,
    life: u8,
) -> bool {
    &&& nc == oc.update(i, nc[i])
    &&& fresh_cell(nc[i], el, life)
    &&& nt == seeded(ot, i, el)
}

/// `b` holds the cells and temperatures of `a` after one step's four passes:
/// the moved flags cleared (`s1`), the charge pass (`s2`), every cell updated
/// once in scan order (`s3`), and the heat pass (`s4`).
pub open spec fn stepped(a: World, b: World) -> bool {
    exists|s1: World, s2: World, s3: World, s4: World|
        #![trigger flags_cleared(a, s1), charge_step(s1, s2), local_step(s2, s3), heat_step(s3, s4)]
        {
            &&& flags_cleared(a, s1)
            &&& charge_step(s1, s2)
            &&& local_step(s2, s3)
            &&& scan_pass(s2, s3)
            &&& heat_step(s3, s4)
            &&& b.cells@ == s4.cells@
            &&& b.temp@ == s4.temp@
        }
}

/// No wall appears or disappears between `oc` and `nc`.
pub open spec fn walls_kept(oc: Seq<Cell>, nc: Seq<Cell>) -> bool {
    &&& oc.len() == nc.len()
    &&& forall|i: int|
        #![trigger oc[i]]
        #![trigger nc[i]]
        0 <= i < oc.len() ==> (oc[i].el == Element::Wall <==> nc[i].el == Element::Wall)
}

/// `b` is `a` with every moved-this-frame flag cleared.
pub open spec fn flags_cleared(a: World, b: World) -> bool {
    &&& b.wf()
    &&& b.frame == a.frame
    &&& b.temp@ == a.temp@
    &&& b.cells@.len() == a.cells@.len()
    &&& forall|i: int|
        0 <= i < a.cells@.len() ==> #[trigger] b.cells@[i] == Cell { moved: false, ..a.cells@[i] }
}

/// `new` follows `old` within one frame: still well formed, same frame
/// counter, and no wall appeared or disappeared.
pub open spec fn local_step(old: World, new: World) -> bool {
    &&& new.wf()
    &&& new.frame == old.frame
    &&& walls_kept(old.cells@, new.cells@)
}

/// Replacing one cell by another that is a wall exactly when it was keeps walls.
pub proof fn lemma_replace_keeps_walls(oc: Seq<Cell>, nc: Seq<Cell>, i: int)
    requires
        0 <= i < oc.len(),
        nc == oc.update(i, nc[i]),
        (oc[i].el == Element::Wall) == (nc[i].el == Element::Wall),
    ensures
        walls_kept(oc, nc),
{
    assert forall|k: int| 0 <= k < oc.len() implies (oc[k].el == Element::Wall <==> nc[k].el
        == Element::Wall) by {
        if k != i {
            assert(nc[k] == oc[k]);
        }
    }
}

/// Keeping walls is transitive.
pub proof fn lemma_walls_trans(a: Seq<Cell>, b: Seq<Cell>, c: Seq<Cell>)
    requires
        walls_kept(a, b),
        walls_kept(b, c),
    ensures
        walls_kept(a, c),
{
    assert forall|k: int| 0 <= k < a.len() implies (a[k].el == Element::Wall <==> c[k].el
        == Element::Wall) by {
        assert(a[k].el == Element::Wall <==> b[k].el == Element::Wall);
    }
}

/// A move of a non-wall cell keeps walls: it only displaces empty space or fluid.
pub proof fn lemma_move_keeps_walls(
    oc: Seq<Cell>,
    ot: Seq<i32>,
    nc: Seq<Cell>,
    nt: Seq<i32>,
    x: int,
    y: int,
    nx: int,
    ny: int,
    going_down: bool,
)
    requires
        oc.len() == CELLS,
        in_grid(x, y),
        oc[cell_index(x, y)].el != Element::Wall,
        moved_to(oc, ot, nc, nt, x, y, nx, ny, going_down),
    ensures
        walls_kept(oc, nc),
{
    let i = cell_index(x, y);
    let j = cell_index(nx, ny);
    assert(oc[j].el != Element::Wall);
    assert forall|k: int| 0 <= k < oc.len() implies (oc[k].el == Element::Wall <==> nc[k].el
        == Element::Wall) by {
        if k != i && k != j {
            assert(nc[k] == oc[k]);
        }
    }
}

/// Is the offset (dx, dy) inside the disc of radius `r`?
pub open spec fn in_disc(dx: int, dy: int, r: int) -> bool {
    -r <= dx <= r && -r <= dy <= r && dx * dx + dy * dy <= r * r
}

/// Has the brush scan of radius `r` passed offset (dx, dy) when it stands at (cur_dx, cur_dy)?
pub open spec fn scanned(dx: int, dy: int, r: int, cur_dx: int, cur_dy: int) -> bool {
    -r <= dx <= r && -r <= dy <= r && (dy < cur_dy || (dy == cur_dy && dx < cur_dx))
}

/// The effect of painting `el` over a cell (`oc`, `ot`) giving (`nc`, `nt`):
/// the eraser empties the cell at ambient temperature; other elements leave
/// walls alone (unless painting wall) and otherwise place a fresh cell with a
/// default lifetime and the element's natural temperature.
pub open spec fn paint_effect(oc: Cell, ot: i32, nc: Cell, nt: i32, el: Element) -> bool {
    if el == Element::Empty {
        nc == Cell::spec_empty() && nt == AMBIENT
    } else if oc.el == Element::Wall && el != Element::Wall {
        nc == oc && nt == ot
    } else {
        &&& fresh_cell(nc, el, nc.life)
        &&& default_life_ok(el, nc.life)
        &&& nt == match spec_natural_temp(el) {
            Some(v) => v,
            None => ot,
        }
    }
}

/// The effect of the spark tool over a cell: conductors get charge 18.
pub open spec fn zap_effect(oc: Cell, nc: Cell) -> bool {
    if spec_conductive(oc.el) {
        nc == Cell { charge: 18, ..oc }
    } else {
        nc == oc
    }
}

/// Coordinates and radius for which a brush stroke stays within `i32` arithmetic.
pub open spec fn brush_fits(cx: i32, cy: i32, radius: i32) -> bool {
    &&& i32::MIN < radius <= 32767
    &&& radius >= 0 ==> {
        &&& i32::MIN <= cx - radius && cx + radius <= i32::MAX
        &&& i32::MIN <= cy - radius && cy + radius <= i32::MAX
    }
}

/// Can `mover` move into a cell holding `target`? Into empty space always; past
/// a different fluid only by density: a heavier mover sinks through it going
/// down, a lighter mover rises through it going up.
pub open spec fn can_displace(mover: Element, target: Element, going_down: bool) -> bool {
    ||| target == Element::Empty
    ||| {
        &&& spec_is_fluid(target)
        &&& target != mover
        &&& if going_down {
            spec_props(mover).density > spec_props(target).density
        } else {
            spec_props(mover).density < spec_props(target).density
        }
    }
}

/// Could the cell at (x, y) move into (nx, ny)?
pub open spec fn can_go(oc: Seq<Cell>, x: int, y: int, nx: int, ny: int, going_down: bool) -> bool {
    in_grid(nx, ny) && can_displace(oc[cell_index(x, y)].el, oc[cell_index(nx, ny)].el, going_down)
}

/// `c` with its moved-this-frame flag set.
pub open spec fn with_moved(c: Cell) -> Cell {
    Cell { moved: true, ..c }
}

/// (`nc`, `nt`) is (`oc`, `ot`) with the cell at (x, y) moved into (nx, ny),
/// displacing what was there back to (x, y); both marked as moved, and the two
/// temperatures travelling with their cells.
pub open spec fn moved_to(
    oc: Seq<Cell>,
    ot: Seq<i32>,
    nc: Seq<Cell>,
    nt: Seq<i32>,
    x: int,
    y: int,
    nx: int,
    ny: int,
    going_down: bool,
) -> bool {
    let i = cell_index(x, y);
    let j = cell_index(nx, ny);
    &&& in_grid(nx, ny)
    &&& can_displace(oc[i].el, oc[j].el, going_down)
    &&& nc == oc.update(j, with_moved(oc[i])).update(i, with_moved(oc[j]))
    &&& nt == ot.update(i, ot[j]).update(j, ot[i])
}

/// Row-major index of an in-grid position.
pub fn idx(x: i32, y: i32) -> (i: usize)
    requires
        in_grid(x as int, y as int),
    ensures
        i as int == cell_index(x as int, y as int),
        i < CELLS,
{
    y as usize * W + x as usize
}

/// Is (x, y) inside the grid?
pub fn in_bounds(x: i32, y: i32) -> (b: bool)
    ensures
        b == in_grid(x as int, y as int),
{
    x >= 0 && y >= 0 && (x as usize) < W && (y as usize) < H
}

/// The lifetimes a freshly painted cell of `el` may get.
pub open spec fn default_life_ok(el: Element, life: u8) -> bool {
    match el {
        Element::Fire => 40 <= life < 90,
        Element::Ember => 120 <= life < 220,
        Element::Smoke | Element::Toxic => 80 <= life < 160,
        Element::Steam => 120 <= life < 220,
        _ => life == 0,
    }
}

/// Default lifetime for a freshly painted cell of a given element.
pub(crate) fn default_life(el: Element) -> (life: u8)
    ensures
        default_life_ok(el, life),
{
    match el {
        Element::Fire => gen_range(40, 90) as u8,
        Element::Ember => gen_range(120, 220) as u8,
        Element::Smoke | Element::Toxic => gen_range(80, 160) as u8,
        Element::Steam => gen_range(120, 220) as u8,
        _ => 0,
    }
}

/// `v` clamped to the range of a colour channel.
pub open spec fn channel(v: int) -> u8 {
    if v < 0 {
        0u8
    } else if v > 255 {
        255u8
    } else {
        v as u8
    }
}

/// A base colour shifted by the per-cell jitter `ra % (2 var + 1) - var`.
pub open spec fn spec_shade(base: (u8, u8, u8), ra: u8, var: u8) -> Seq<u8> {
    let delta = (ra as int) % (2 * (var as int) + 1) - var as int;
    seq![channel(base.0 + delta), channel(base.1 + delta), channel(base.2 + delta), 255u8]
}

fn shift_channel(c: u8, delta: i32) -> (r: u8)
    requires
        -255 <= delta <= 255,
    ensures
        r == channel(c + delta),
{
    let v = c as i32 + delta;
    if v < 0 {
        0
    } else if v > 255 {
        255
    } else {
        v as u8
    }
}

/// Base colour with per-cell jitter, as opaque RGBA.
pub fn shade(base: (u8, u8, u8), ra: u8, var: u8) -> (c: [u8; 4])
    ensures
        c@ == spec_shade(base, ra, var),
{
    if var == 0 {
        let c = [base.0, base.1, base.2, 255];
        assert(c@ =~= spec_shade(base, ra, var));
        return c;
    }
    let span: u16 = (var as u16) * 2 + 1;
    let delta: i32 = ((ra as u16) % span) as i32 - var as i32;
    let c = [
        shift_channel(base.0, delta),
        shift_channel(base.1, delta),
        shift_channel(base.2, delta),
        255,
    ];
    assert(c@ =~= spec_shade(base, ra, var));
    c
}

/// Fire colour by remaining life: pale yellow when young, deep red as it cools.
pub open spec fn spec_fire_color(life: u8) -> Seq<u8> {
    let l: int = if life > 90 {
        90
    } else {
        life as int
    };
    seq![255u8, (60 + l * 170 / 90) as u8, (10 + l * 110 / 90) as u8, 255u8]
}

/// Fire colour by remaining life: pale yellow when young, deep red as it cools.
pub fn fire_color(life: u8) -> (c: [u8; 4])
    ensures
        c@ == spec_fire_color(life),
{
    let l: u32 = if life > 90 {
        90
    } else {
        life as u32
    };
    let c = [255, (60 + l * 170 / 90) as u8, (10 + l * 110 / 90) as u8, 255];
    assert(c@ =~= spec_fire_color(life));
    c
}

/// Does `set` hold `e`?
fn contains_el(set: &[Element], e: Element) -> (b: bool)
    ensures
        b == set@.contains(e),
{
    let mut k: usize = 0;
    while k < set.len()
        invariant
            k <= set@.len(),
            forall|j: int| 0 <= j < k ==> set@[j] != e,
        decreases set@.len() - k,
    {
        if set[k] == e {
            return true;
        }
        k = k + 1;
    }
    false
}

/// Lava brightens toward white-hot with temperature: the glow is the part of
/// the temperature above 560 degrees, up to 900 degrees more.
pub open spec fn lava_glow(t: i32) -> int {
    if t <= 560_000 {
        0
    } else if t >= 1_460_000 {
        900_000
    } else {
        t - 560_000
    }
}

/// The colour of a non-empty cell before any charge glow.
pub open spec fn base_color(c: Cell, t: i32) -> Seq<u8> {
    if c.el == Element::Fire {
        spec_fire_color(c.life)
    } else if c.el == Element::Lava {
        seq![
            210u8,
            (80 + lava_glow(t) * 120 / 900_000) as u8,
            (20 + lava_glow(t) * 40 / 900_000) as u8,
            255u8,
        ]
    } else if c.el == Element::Smoke {
        let v = 40 + (c.life as int) * 40 / 160;
        seq![v as u8, v as u8, (v + 6) as u8, 255u8]
    } else {
        spec_shade(spec_props(c.el).color, c.ra, spec_props(c.el).var)
    }
}

/// `v` capped at 255.
pub open spec fn cap(v: int) -> u8 {
    if v > 255 {
        255u8
    } else {
        v as u8
    }
}

/// The RGBA colour of a cell at temperature `t`: empty space is the
/// background; charged conductors glow electric blue-white.
pub open spec fn spec_color(c: Cell, t: i32) -> Seq<u8> {
    if c.el == Element::Empty {
        seq![12u8, 12u8, 16u8, 255u8]
    } else {
        let b = base_color(c, t);
        if c.charge > 0 {
            seq![
                cap(b[0] + (c.charge as int) * 120 / 18),
                cap(b[1] + (c.charge as int) * 160 / 18),
                255u8,
                b[3],
            ]
        } else {
            b
        }
    }
}

impl World {
    /// A full grid: a cell and a temperature for every position.
    pub open spec fn shaped(&self) -> bool {
        &&& self.cells@.len() == CELLS
        &&& self.temp@.len() == CELLS
    }

    /// The world's invariant: a full grid with every temperature in range.
    pub open spec fn wf(&self) -> bool {
        &&& self.shaped()
        &&& temps_ok(self.temp@)
    }

    /// The element at (x, y); outside the grid the world edge is a wall.
    pub open spec fn el_of(&self, x: int, y: int) -> Element {
        if in_grid(x, y) {
            self.cells@[cell_index(x, y)].el
        } else {
            Element::Wall
        }
    }

    /// Does any of the four neighbours of (x, y) hold an element of `set`?
    pub open spec fn touches(&self, x: int, y: int, set: Seq<Element>) -> bool {
        ||| set.contains(self.el_of(x, y + 1))
        ||| set.contains(self.el_of(x, y - 1))
        ||| set.contains(self.el_of(x + 1, y))
        ||| set.contains(self.el_of(x - 1, y))
    }

    pub(crate) fn has_neighbor(&self, x: i32, y: i32, set: &[Element]) -> (b: bool)
        requires
            self.wf(),
            in_grid(x as int, y as int),
        ensures
            b == self.touches(x as int, y as int, set@),
    {
        contains_el(set, self.el_at(x, y + 1)) || contains_el(set, self.el_at(x, y - 1))
            || contains_el(set, self.el_at(x + 1, y)) || contains_el(set, self.el_at(x - 1, y))
    }

    /// Paints a filled disc of `el` (radius in cells) into the world. The
    /// eraser (`Empty`) clears cells to ambient temperature; other elements
    /// never overwrite walls unless painting wall.
    pub fn paint(&mut self, cx: i32, cy: i32, radius: i32, el: Element)
        requires
            old(self).shaped(),
            brush_fits(cx, cy, radius),
        ensures
            final(self).shaped(),
            old(self).wf() ==> final(self).wf(),
            final(self).frame == old(self).frame,
            forall|x: int, y: int|
                #![trigger cell_index(x, y)]
                in_grid(x, y) ==> if in_disc(x - cx, y - cy, radius as int) {
                    paint_effect(
                        old(self).cells@[cell_index(x, y)],
                        old(self).temp@[cell_index(x, y)],
                        final(self).cells@[cell_index(x, y)],
                        final(self).temp@[cell_index(x, y)],
                        el,
                    )
                } else {
                    final(self).cells@[cell_index(x, y)] == old(self).cells@[cell_index(x, y)]
                        && final(self).temp@[cell_index(x, y)] == old(self).temp@[cell_index(
                        x,
                        y,
                    )]
                },
    {
        if radius < 0 {
            return;
        }
        let mut dy: i32 = -radius;
        while dy <= radius
            invariant
                brush_fits(cx, cy, radius),
                radius >= 0,
                -radius <= dy <= radius + 1,
                self.shaped(),
                old(self).wf() ==> self.wf(),
                self.frame == old(self).frame,
                forall|x: int, y: int|
                    #![trigger cell_index(x, y)]
                    in_grid(x, y) ==> if scanned(x - cx, y - cy, radius as int, -radius as int, dy as int)
                        && in_disc(x - cx, y - cy, radius as int) {
                        paint_effect(
                            old(self).cells@[cell_index(x, y)],
                            old(self).temp@[cell_index(x, y)],
                            self.cells@[cell_index(x, y)],
                            self.temp@[cell_index(x, y)],
                            el,
                        )
                    } else {
                        self.cells@[cell_index(x, y)] == old(self).cells@[cell_index(x, y)]
                            && self.temp@[cell_index(x, y)] == old(self).temp@[cell_index(x, y)]
                    },
            decreases radius - dy + 1,
        {
            let mut dx: i32 = -radius;
            while dx <= radius
                invariant
                    brush_fits(cx, cy, radius),
                    radius >= 0,
                    -radius <= dy <= radius,
                    -radius <= dx <= radius + 1,
                    self.shaped(),
                old(self).wf() ==> self.wf(),
                    self.frame == old(self).frame,
                    forall|x: int, y: int|
                        #![trigger cell_index(x, y)]
                        in_grid(x, y) ==> if scanned(
                            x - cx,
                            y - cy,
                            radius as int,
                            dx as int,
                            dy as int,
                        )
                            && in_disc(x - cx, y - cy, radius as int) {
                            paint_effect(
                                old(self).cells@[cell_index(x, y)],
                                old(self).temp@[cell_index(x, y)],
                                self.cells@[cell_index(x, y)],
                                self.temp@[cell_index(x, y)],
                                el,
                            )
                        } else {
                            self.cells@[cell_index(x, y)] == old(self).cells@[cell_index(x, y)]
                                && self.temp@[cell_index(x, y)] == old(self).temp@[cell_index(
                                x,
                                y,
                            )]
                        },
                decreases radius - dx + 1,
            {
                proof {
                    assert(0 <= dx * dx <= radius * radius) by (nonlinear_arith)
                        requires
                            -radius <= dx <= radius,
                    ;
                    assert(0 <= dy * dy <= radius * radius) by (nonlinear_arith)
                        requires
                            -radius <= dy <= radius,
                    ;
                    assert(radius * radius <= 32767 * 32767) by (nonlinear_arith)
                        requires
                            0 <= radius <= 32767,
                    ;
                }
                if dx * dx + dy * dy <= radius * radius {
                    let x = cx + dx;
                    let y = cy + dy;
                    if in_bounds(x, y) {
                        let i = idx(x, y);
                        let ghost before_c = self.cells@;
                        let ghost before_t = self.temp@;
                        match el {
                            Element::Empty => {
                                self.cells.set(i, Cell::empty());
                                self.temp.set(i, AMBIENT);
                            },
                            _ => {
                                if !(self.cells[i].el == Element::Wall && el != Element::Wall) {
                                    let life = default_life(el);
                                    let ra = gen_range(0, 255) as u8;
                                    self.cells.set(i, Cell { el, ra, life, charge: 0, moved: true });
                                    match natural_temp(el) {
                                        Some(t) => {
                                            self.temp.set(i, t);
                                        },
                                        None => {},
                                    }
                                }
                            },
                        }
                        assert(self.cells@ == before_c.update(i as int, self.cells@[i as int]));
                        assert(self.temp@ == before_t.update(i as int, self.temp@[i as int]));
                    }
                }
                dx = dx + 1;
            }
            dy = dy + 1;
        }
    }

    /// Injects electrical charge (level 18) into the conductors under a disc
    /// brush: the spark tool.
    pub fn zap(&mut self, cx: i32, cy: i32, radius: i32)
        requires
            old(self).shaped(),
            brush_fits(cx, cy, radius),
        ensures
            final(self).shaped(),
            old(self).wf() ==> final(self).wf(),
            final(self).frame == old(self).frame,
            final(self).temp@ == old(self).temp@,
            forall|x: int, y: int|
                #![trigger cell_index(x, y)]
                in_grid(x, y) ==> if in_disc(x - cx, y - cy, radius as int) {
                    zap_effect(
                        old(self).cells@[cell_index(x, y)],
                        final(self).cells@[cell_index(x, y)],
                    )
                } else {
                    final(self).cells@[cell_index(x, y)] == old(self).cells@[cell_index(x, y)]
                },
    {
        if radius < 0 {
            return;
        }
        let mut dy: i32 = -radius;
        while dy <= radius
            invariant
                brush_fits(cx, cy, radius),
                radius >= 0,
                -radius <= dy <= radius + 1,
                self.shaped(),
                old(self).wf() ==> self.wf(),
                self.frame == old(self).frame,
                self.temp@ == old(self).temp@,
                forall|x: int, y: int|
                    #![trigger cell_index(x, y)]
                    in_grid(x, y) ==> if scanned(x - cx, y - cy, radius as int, -radius as int, dy as int)
                        && in_disc(x - cx, y - cy, radius as int) {
                        zap_effect(
                            old(self).cells@[cell_index(x, y)],
                            self.cells@[cell_index(x, y)],
                        )
                    } else {
                        self.cells@[cell_index(x, y)] == old(self).cells@[cell_index(x, y)]
                    },
            decreases radius - dy + 1,
        {
            let mut dx: i32 = -radius;
            while dx <= radius
                invariant
                    brush_fits(cx, cy, radius),
                    radius >= 0,
                    -radius <= dy <= radius,
                    -radius <= dx <= radius + 1,
                    self.shaped(),
                old(self).wf() ==> self.wf(),
                    self.frame == old(self).frame,
                    self.temp@ == old(self).temp@,
                    forall|x: int, y: int|
                        #![trigger cell_index(x, y)]
                        in_grid(x, y) ==> if scanned(
                            x - cx,
                            y - cy,
                            radius as int,
                            dx as int,
                            dy as int,
                        )
                            && in_disc(x - cx, y - cy, radius as int) {
                            zap_effect(
                                old(self).cells@[cell_index(x, y)],
                                self.cells@[cell_index(x, y)],
                            )
                        } else {
                            self.cells@[cell_index(x, y)] == old(self).cells@[cell_index(x, y)]
                        },
                decreases radius - dx + 1,
            {
                proof {
                    assert(0 <= dx * dx <= radius * radius) by (nonlinear_arith)
                        requires
                            -radius <= dx <= radius,
                    ;
                    assert(0 <= dy * dy <= radius * radius) by (nonlinear_arith)
                        requires
                            -radius <= dy <= radius,
                    ;
                    assert(radius * radius <= 32767 * 32767) by (nonlinear_arith)
                        requires
                            0 <= radius <= 32767,
                    ;
                }
                if dx * dx + dy * dy <= radius * radius {
                    let x = cx + dx;
                    let y = cy + dy;
                    if in_bounds(x, y) {
                        let i = idx(x, y);
                        let ghost before_c = self.cells@;
                        if conductive(self.cells[i].el) {
                            let mut c = self.cells[i];
                            c.charge = 18;
                            self.cells.set(i, c);
                        }
                        assert(self.cells@ == before_c.update(i as int, self.cells@[i as int]));
                    }
                }
                dx = dx + 1;
            }
            dy = dy + 1;
        }
    }

    /// Tries to move the cell at (x, y) into (nx, ny): into empty space, or by
    /// displacing a fluid the mover sinks past (going down) or rises past (up).
    pub(crate) fn try_move(&mut self, x: i32, y: i32, nx: i32, ny: i32, going_down: bool) -> (moved: bool)
        requires
            old(self).wf(),
            in_grid(x as int, y as int),
        ensures
            final(self).wf(),
            final(self).frame == old(self).frame,
            moved == (in_grid(nx as int, ny as int) && can_displace(
                old(self).cells@[cell_index(x as int, y as int)].el,
                old(self).cells@[cell_index(nx as int, ny as int)].el,
                going_down,
            )),
            moved ==> moved_to(
                old(self).cells@,
                old(self).temp@,
                final(self).cells@,
                final(self).temp@,
                x as int,
                y as int,
                nx as int,
                ny as int,
                going_down,
            ),
            !moved ==> final(self).cells@ == old(self).cells@ && final(self).temp@ == old(
                self,
            ).temp@,
    {
        if !in_bounds(nx, ny) {
            return false;
        }
        let i = idx(x, y);
        let j = idx(nx, ny);
        let a = self.cells[i];
        let b = self.cells[j];
        let can = match b.el {
            Element::Empty => true,
            other => {
                if is_fluid(other) && other != a.el {
                    let da = props(a.el).density;
                    let db = props(other).density;
                    if going_down {
                        da > db
                    } else {
                        da < db
                    }
                } else {
                    false
                }
            },
        };
        if !can {
            return false;
        }
        self.swap_cells(i, j);
        true
    }

    /// Exchanges cells `i` and `j` (both marked as moved) with their temperatures.
    fn swap_cells(&mut self, i: usize, j: usize)
        requires
            old(self).wf(),
            i < CELLS,
            j < CELLS,
        ensures
            final(self).wf(),
            final(self).frame == old(self).frame,
            final(self).cells@ == old(self).cells@.update(
                j as int,
                with_moved(old(self).cells@[i as int]),
            ).update(i as int, with_moved(old(self).cells@[j as int])),
            final(self).temp@ == old(self).temp@.update(i as int, old(self).temp@[j as int]).update(
                j as int,
                old(self).temp@[i as int],
            ),
    {
        let mut na = self.cells[i];
        let mut nb = self.cells[j];
        na.moved = true;
        nb.moved = true;
        self.cells.set(j, na);
        self.cells.set(i, nb);
        let ti = self.temp[i];
        let tj = self.temp[j];
        self.temp.set(i, tj);
        self.temp.set(j, ti);
    }

    /// Horizontal flow into empty space or a strictly lighter, different fluid.
    pub(crate) fn flow_side(&mut self, x: i32, y: i32, dir: i32) -> (moved: bool)
        requires
            old(self).wf(),
            in_grid(x as int, y as int),
            dir == 1 || dir == -1,
        ensures
            final(self).wf(),
            final(self).frame == old(self).frame,
            moved == (in_grid(x + dir, y as int) && can_displace(
                old(self).cells@[cell_index(x as int, y as int)].el,
                old(self).cells@[cell_index(x + dir, y as int)].el,
                true,
            )),
            moved ==> moved_to(
                old(self).cells@,
                old(self).temp@,
                final(self).cells@,
                final(self).temp@,
                x as int,
                y as int,
                x + dir,
                y as int,
                true,
            ),
            !moved ==> final(self).cells@ == old(self).cells@ && final(self).temp@ == old(
                self,
            ).temp@,
    {
        let nx = x + dir;
        if !in_bounds(nx, y) {
            return false;
        }
        let i = idx(x, y);
        let j = idx(nx, y);
        let a = self.cells[i];
        let b = self.cells[j];
        let can = b.el == Element::Empty || (is_fluid(b.el) && b.el != a.el && props(a.el).density
            > props(b.el).density);
        if !can {
            return false;
        }
        self.swap_cells(i, j);
        true
    }

    /// Final RGBA colour of the cell at flat index `i`.
    pub fn color_at(&self, i: usize) -> (col: [u8; 4])
        requires
            self.shaped(),
            i < CELLS,
        ensures
            col@ == spec_color(self.cells@[i as int], self.temp@[i as int]),
    {
        let c = self.cells[i];
        let mut col = match c.el {
            Element::Empty => {
                let e = [12, 12, 16, 255];
                assert(e@ =~= spec_color(c, self.temp@[i as int]));
                return e;
            },
            Element::Fire => fire_color(c.life),
            Element::Lava => {
                let t = self.temp[i];
                let glow: u32 = if t <= 560_000 {
                    0
                } else if t >= 1_460_000 {
                    900_000
                } else {
                    (t - 560_000) as u32
                };
                [210, (80 + glow * 120 / 900_000) as u8, (20 + glow * 40 / 900_000) as u8, 255]
            },
            Element::Smoke => {
                let v = (40 + (c.life as u32) * 40 / 160) as u8;
                [v, v, (v as u16 + 6) as u8, 255]
            },
            _ => {
                let p = props(c.el);
                shade(p.color, c.ra, p.var)
            },
        };
        assert(col@ =~= base_color(c, self.temp@[i as int]));
        if c.charge > 0 {
            let g0 = col[0] as u32 + (c.charge as u32) * 120 / 18;
            let g1 = col[1] as u32 + (c.charge as u32) * 160 / 18;
            col[0] = if g0 > 255 { 255 } else { g0 as u8 };
            col[1] = if g1 > 255 { 255 } else { g1 as u8 };
            col[2] = 255;
        }
        assert(col@ =~= spec_color(c, self.temp@[i as int]));
        col
    }

    /// Advances the world one frame in four passes: clear the moved flags
    /// (`s1`); the charge pass (`s2`); update every cell once by its element's
    /// rule, bottom-up with the x direction alternating by frame (`s3`); then
    /// heat (`s4`). Walls are indestructible: no wall appears or disappears.
    pub fn step(&mut self)
        requires
            old(self).wf(),
            old(self).frame < u64::MAX,
        ensures
            final(self).wf(),
            final(self).frame == old(self).frame + 1,
            walls_kept(old(self).cells@, final(self).cells@),
            stepped(*old(self), *final(self)),
    {
        let mut k: usize = 0;
        while k < CELLS
            invariant
                k <= CELLS,
                local_step(*old(self), *self),
                self.temp@ == old(self).temp@,
                forall|j: int|
                    0 <= j < CELLS ==> #[trigger] self.cells@[j] == if j < k {
                        Cell { moved: false, ..old(self).cells@[j] }
                    } else {
                        old(self).cells@[j]
                    },
            decreases CELLS - k,
        {
            let ghost before = *self;
            let mut c = self.cells[k];
            c.moved = false;
            self.replace_cell(k, c);
            proof {
                lemma_walls_trans(old(self).cells@, before.cells@, self.cells@);
            }
            k = k + 1;
        }
        let ghost cleared = *self;
        assert(flags_cleared(*old(self), cleared));
        self.charge_pass();
        let ghost charged = *self;
        proof {
            lemma_walls_trans(old(self).cells@, cleared.cells@, self.cells@);
        }
        let l2r = self.frame % 2 == 0;
        let ghost mut trace: Seq<World> = seq![*self];
        let mut y: i32 = H_I32;
        while y > 0
            invariant
                0 <= y <= H_I32,
                local_step(*old(self), *self),
                l2r == (charged.frame % 2 == 0),
                trace.len() == (H_I32 - y) * W_I32 + 1,
                trace[0] == charged,
                trace.last() == *self,
                forall|k: int| 0 <= k < trace.len() - 1 ==> #[trigger] scan_link(trace, charged.frame, k),
            decreases y,
        {
            y = y - 1;
            let mut xi: i32 = 0;
            while xi < W_I32
                invariant
                    0 <= y < H_I32,
                    0 <= xi <= W_I32,
                    local_step(*old(self), *self),
                    l2r == (charged.frame % 2 == 0),
                    trace.len() == (H_I32 - 1 - y) * W_I32 + xi + 1,
                    trace[0] == charged,
                    trace.last() == *self,
                    forall|k: int|
                        0 <= k < trace.len() - 1 ==> #[trigger] scan_link(trace, charged.frame, k),
                decreases W_I32 - xi,
            {
                let x = if l2r {
                    xi
                } else {
                    W_I32 - 1 - xi
                };
                let ghost before = *self;
                self.update_cell(x, y);
                proof {
                    lemma_walls_trans(old(self).cells@, before.cells@, self.cells@);
                    let k = trace.len() - 1;
                    assert(k == (H_I32 - 1 - y) * W_I32 + xi);
                    assert(k / (W as int) == H_I32 - 1 - y && k % (W as int) == xi) by {
                        vstd::arithmetic::div_mod::lemma_fundamental_div_mod_converse(
                            k,
                            W as int,
                            H_I32 - 1 - y,
                            xi as int,
                        );
                    }
                    let old_trace = trace;
                    trace = trace.push(*self);
                    assert forall|j: int| 0 <= j < trace.len() - 1 implies #[trigger] scan_link(
                        trace,
                        charged.frame,
                        j,
                    ) by {
                        if j < k {
                            assert(scan_link(old_trace, charged.frame, j));
                        }
                    }
                }
                xi = xi + 1;
            }
        }
        let ghost moved = *self;
        proof {
            lemma_walls_trans(cleared.cells@, charged.cells@, moved.cells@);
            assert(scan_trace(charged, moved, trace));
        }
        self.heat_pass();
        let ghost heated = *self;
        proof {
            lemma_walls_trans(old(self).cells@, moved.cells@, self.cells@);
            assert(local_step(charged, moved));
            assert(heat_step(moved, heated));
        }
        self.frame = self.frame + 1;
    }

    /// An empty world at ambient temperature.
    pub fn new() -> (w: World)
        ensures
            w.wf(),
            w.cells@ == Seq::new(CELLS as nat, |i: int| Cell::spec_empty()),
            w.temp@ == Seq::new(CELLS as nat, |i: int| AMBIENT),
            w.frame == 0,
    {
        let mut cells: Vec<Cell> = Vec::new();
        let mut temp: Vec<i32> = Vec::new();
        let mut k: usize = 0;
        while k < CELLS
            invariant
                k <= CELLS,
                cells@.len() == k,
                temp@.len() == k,
                forall|j: int| 0 <= j < k ==> #[trigger] cells@[j] == Cell::spec_empty(),
                forall|j: int| 0 <= j < k ==> #[trigger] temp@[j] == AMBIENT,
            decreases CELLS - k,
        {
            cells.push(Cell::empty());
            temp.push(AMBIENT);
            k = k + 1;
        }
        let w = World { cells, temp, frame: 0 };
        assert(w.cells@ =~= Seq::new(CELLS as nat, |i: int| Cell::spec_empty()));
        assert(w.temp@ =~= Seq::new(CELLS as nat, |i: int| AMBIENT));
        w
    }

    /// Empties every cell and resets every temperature to ambient.
    pub fn clear(&mut self)
        requires
            old(self).shaped(),
        ensures
            final(self).wf(),
            final(self).cells@ == Seq::new(CELLS as nat, |i: int| Cell::spec_empty()),
            final(self).temp@ == Seq::new(CELLS as nat, |i: int| AMBIENT),
            final(self).frame == old(self).frame,
    {
        let mut k: usize = 0;
        while k < CELLS
            invariant
                k <= CELLS,
                self.shaped(),
                self.frame == old(self).frame,
                forall|j: int| 0 <= j < k ==> #[trigger] self.cells@[j] == Cell::spec_empty(),
                forall|j: int| 0 <= j < k ==> #[trigger] self.temp@[j] == AMBIENT,
            decreases CELLS - k,
        {
            self.cells.set(k, Cell::empty());
            self.temp.set(k, AMBIENT);
            k = k + 1;
        }
        assert(self.cells@ =~= Seq::new(CELLS as nat, |i: int| Cell::spec_empty()));
        assert(self.temp@ =~= Seq::new(CELLS as nat, |i: int| AMBIENT));
    }

    /// The element at (x, y); the world edge behaves like an indestructible wall.
    pub fn el_at(&self, x: i32, y: i32) -> (el: Element)
        requires
            self.shaped(),
        ensures
            el == self.el_of(x as int, y as int),
    {
        if in_bounds(x, y) {
            self.cells[idx(x, y)].el
        } else {
            Element::Wall
        }
    }

    /// Places a fresh cell of `el` (random colour seed), seeding its natural
    /// temperature if it has one. Outside the grid nothing happens.
    pub fn spawn(&mut self, x: i32, y: i32, el: Element, life: u8)
        requires
            old(self).shaped(),
        ensures
            final(self).shaped(),
            old(self).wf() ==> final(self).wf(),
            final(self).frame == old(self).frame,
            !in_grid(x as int, y as int) ==> final(self).cells@ == old(self).cells@
                && final(self).temp@ == old(self).temp@,
            in_grid(x as int, y as int) ==> spawned_at(
                old(self).cells@,
                old(self).temp@,
                final(self).cells@,
                final(self).temp@,
                cell_index(x as int, y as int),
                el,
                life,
            ),
    {
        if !in_bounds(x, y) {
            return;
        }
        let i = idx(x, y);
        let ra = gen_range(0, 255) as u8;
        self.cells.set(i, Cell { el, ra, life, charge: 0, moved: true });
        match natural_temp(el) {
            Some(t) => {
                self.temp.set(i, t);
            },
            None => {},
        }
        assert(self.cells@ =~= old(self).cells@.update(i as int, self.cells@[i as int]));
        assert(self.temp@ =~= seeded(old(self).temp@, i as int, el));
    }
}

/// Does `el` hold up a body resting on it: anything solid or granular.
pub open spec fn supports(el: Element) -> bool {
    spec_props(el).cat == Cat::Solid || spec_props(el).cat == Cat::Powder
}

impl World {
    /// Is (x, y) firm ground for a body? The world edge counts as a wall.
    pub fn solid_at(&self, x: i32, y: i32) -> (b: bool)
        requires
            self.shaped(),
        ensures
            b == supports(self.el_of(x as int, y as int)),
    {
        let cat = props(self.el_at(x, y)).cat;
        match cat {
            Cat::Solid | Cat::Powder => true,
            _ => false,
        }
    }

    /// Drips `el` (with its usual lifetime) into (x, y) if that cell is empty.
    pub fn drip(&mut self, x: i32, y: i32, el: Element)
        requires
            old(self).shaped(),
        ensures
            final(self).shaped(),
            old(self).wf() ==> final(self).wf(),
            final(self).frame == old(self).frame,
            old(self).el_of(x as int, y as int) == Element::Empty ==> {
                let i = cell_index(x as int, y as int);
                &&& spawned_at(
                    old(self).cells@,
                    old(self).temp@,
                    final(self).cells@,
                    final(self).temp@,
                    i,
                    el,
                    final(self).cells@[i].life,
                )
                &&& default_life_ok(el, final(self).cells@[i].life)
            },
            old(self).el_of(x as int, y as int) != Element::Empty ==> final(self).cells@ == old(
                self,
            ).cells@ && final(self).temp@ == old(self).temp@,
    {
        if self.el_at(x, y) == Element::Empty {
            let life = default_life(el);
            self.spawn(x, y, el, life);
        }
    }
}

/// The number of cells of `c` that hold something.
pub open spec fn filled(c: Seq<Cell>) -> nat {
    c.filter(|k: Cell| k.el != Element::Empty).len()
}

impl World {
    /// The charge at (x, y); none beyond the world edge.
    pub fn charge_at(&self, x: i32, y: i32) -> (ch: u8)
        requires
            self.shaped(),
        ensures
            ch == if in_grid(x as int, y as int) {
                self.cells@[cell_index(x as int, y as int)].charge
            } else {
                0
            },
    {
        if in_bounds(x, y) {
            self.cells[idx(x, y)].charge
        } else {
            0
        }
    }

    /// The temperature at (x, y), in thousandths of a degree; ambient beyond
    /// the world edge.
    pub fn temp_at(&self, x: i32, y: i32) -> (t: i32)
        requires
            self.shaped(),
        ensures
            t == if in_grid(x as int, y as int) {
                self.temp@[cell_index(x as int, y as int)]
            } else {
                AMBIENT
            },
    {
        if in_bounds(x, y) {
            self.temp[idx(x, y)]
        } else {
            AMBIENT
        }
    }

    /// How many cells hold something (are not empty).
    pub fn particle_count(&self) -> (n: usize)
        requires
            self.shaped(),
        ensures
            n == filled(self.cells@),
    {
        let ghost pred = |k: Cell| k.el != Element::Empty;
        let mut n: usize = 0;
        let mut i: usize = 0;
        while i < CELLS
            invariant
                self.shaped(),
                i <= CELLS,
                pred == (|k: Cell| k.el != Element::Empty),
                n == self.cells@.take(i as int).filter(pred).len(),
                n <= i,
            decreases CELLS - i,
        {
            proof {
                let prefix = self.cells@.take(i as int);
                assert(self.cells@.take(i as int + 1) =~= prefix.push(self.cells@[i as int]));
                prefix.lemma_filter_push(self.cells@[i as int], pred);
            }
            if self.cells[i].el != Element::Empty {
                n = n + 1;
            }
            i = i + 1;
        }
        assert(self.cells@.take(CELLS as int) =~= self.cells@);
        n
    }
}

} // verus!
