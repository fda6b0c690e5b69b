//! Electricity and heat: the charge wave through conductors, heat emission,
//! diffusion and the phase changes that temperature drives.

use vstd::prelude::*;
use crate::element::{Element, conductive, spec_conductive};
use crate::rng::gen_range;
use crate::behaviour::blasted;
use crate::world::{
    AMBIENT, CELLS, Cell, W, TEMP_MAX, TEMP_MIN, World, cell_index, idx, in_bounds, in_grid,
    lemma_replace_keeps_walls, lemma_walls_trans, local_step, spawned_at, temp_ok, temps_ok,
    walls_kept,
};

verus! {

/// The element at (x, y) of the cell sequence `c`; the world edge is a wall.
pub open spec fn el_in(c: Seq<Cell>, x: int, y: int) -> Element {
    if in_grid(x, y) {
        c[cell_index(x, y)].el
    } else {
        Element::Wall
    }
}

/// Reacts when a conductor next to it fires: gunpowder and oil ignite, bombs explode.
pub open spec fn reactive(el: Element) -> bool {
    el == Element::Gunpowder || el == Element::Oil || el == Element::Bomb
}

/// No charged conductor of `c` has a reactive neighbour.
#[verifier::opaque]
pub open spec fn quiet(c: Seq<Cell>) -> bool {
    forall|x: int, y: int|
        #![trigger cell_index(x, y)]
        in_grid(x, y) && spec_conductive(c[cell_index(x, y)].el) && c[cell_index(x, y)].charge
            > 0 ==> {
            &&& !reactive(el_in(c, x, y + 1))
            &&& !reactive(el_in(c, x, y - 1))
            &&& !reactive(el_in(c, x + 1, y))
            &&& !reactive(el_in(c, x - 1, y))
        }
}

/// The charge a conductor at (nx, ny) passes on: one less than its own, if above one.
pub open spec fn passed_charge(c: Seq<Cell>, nx: int, ny: int) -> int {
    if in_grid(nx, ny) && spec_conductive(c[cell_index(nx, ny)].el) && c[cell_index(
        nx,
        ny,
    )].charge > 1 {
        c[cell_index(nx, ny)].charge - 1
    } else {
        0
    }
}

pub open spec fn max2(a: int, b: int) -> int {
    if a >= b {
        a
    } else {
        b
    }
}

/// The charge of the cell at (x, y) one frame on: a charged conductor fires
/// and goes quiet; an uncharged one picks up the strongest neighbouring charge
/// minus one; anything else holds no charge.
pub open spec fn next_charge(c: Seq<Cell>, x: int, y: int) -> int {
    let cell = c[cell_index(x, y)];
    if !spec_conductive(cell.el) || cell.charge > 0 {
        0
    } else {
        max2(
            max2(passed_charge(c, x, y + 1), passed_charge(c, x, y - 1)),
            max2(passed_charge(c, x + 1, y), passed_charge(c, x - 1, y)),
        )
    }
}

/// Does the cell at (x, y) either not fire (by its element in `c` and its
/// charge in `ch`) or have no reactive neighbour?
pub open spec fn quiet_at(c: Seq<Cell>, ch: Seq<u8>, x: int, y: int) -> bool {
    let i = cell_index(x, y);
    ||| !(spec_conductive(c[i].el) && ch[i] > 0)
    ||| {
        &&& !reactive(el_in(c, x, y + 1))
        &&& !reactive(el_in(c, x, y - 1))
        &&& !reactive(el_in(c, x + 1, y))
        &&& !reactive(el_in(c, x - 1, y))
    }
}

/// The charge the pass gives the cell at (x, y), by the elements of `c` and
/// the snapshot charges `ch`.
pub open spec fn charge_formula(c: Seq<Cell>, ch: Seq<u8>, x: int, y: int) -> int {
    let i = cell_index(x, y);
    if !spec_conductive(c[i].el) || ch[i] > 0 {
        0
    } else {
        max2(
            max2(passed_now(c, ch, x, y + 1), passed_now(c, ch, x, y - 1)),
            max2(passed_now(c, ch, x + 1, y), passed_now(c, ch, x - 1, y)),
        )
    }
}

/// Midway through a quiet charge pass standing at (x, y): the scanned cells
/// hold their next charge, the rest are as they were.
#[verifier::opaque]
pub open spec fn charge_progress(oc: Seq<Cell>, cur: Seq<Cell>, x: int, y: int) -> bool {
    forall|px: int, py: int|
        #![trigger cell_index(px, py)]
        in_grid(px, py) ==> cur[cell_index(px, py)] == (Cell {
            charge: if before_in_scan(px, py, x, y) {
                next_charge(oc, px, py) as u8
            } else {
                oc[cell_index(px, py)].charge
            },
            ..oc[cell_index(px, py)]
        })
}

/// One quiet step of the charge pass keeps its progress.
proof fn lemma_charge_step(oc: Seq<Cell>, cur: Seq<Cell>, nxt: Seq<Cell>, ch: Seq<u8>, x: int, y: int)
    requires
        oc.len() == CELLS,
        cur.len() == CELLS,
        ch.len() == CELLS,
        in_grid(x, y),
        quiet(oc),
        forall|j: int| 0 <= j < CELLS ==> ch[j] == #[trigger] oc[j].charge,
        charge_progress(oc, cur, x, y),
        quiet_at(cur, ch, x, y) ==> nxt == cur.update(
            cell_index(x, y),
            Cell { charge: charge_formula(cur, ch, x, y) as u8, ..cur[cell_index(x, y)] },
        ),
    ensures
        quiet_at(cur, ch, x, y),
        charge_progress(oc, nxt, x + 1, y),
{
    let i = cell_index(x, y);
    lemma_progress_els(oc, cur, x, y);
    lemma_quiet_here(oc, x, y);
    lemma_same_els_charge(oc, cur, ch, x, y + 1);
    lemma_same_els_charge(oc, cur, ch, x, y - 1);
    lemma_same_els_charge(oc, cur, ch, x + 1, y);
    lemma_same_els_charge(oc, cur, ch, x - 1, y);
    assert(quiet_at(cur, ch, x, y));
    assert(charge_formula(cur, ch, x, y) == next_charge(oc, x, y));
    reveal(charge_progress);
    assert forall|px: int, py: int|
        #![trigger cell_index(px, py)]
        in_grid(px, py) implies nxt[cell_index(px, py)] == (Cell {
        charge: if before_in_scan(px, py, x + 1, y) {
            next_charge(oc, px, py) as u8
        } else {
            oc[cell_index(px, py)].charge
        },
        ..oc[cell_index(px, py)]
    }) by {
        if px != x || py != y {
            assert(cell_index(px, py) != i);
            assert(nxt[cell_index(px, py)] == cur[cell_index(px, py)]);
            assert(before_in_scan(px, py, x + 1, y) == before_in_scan(px, py, x, y));
        }
    }
}

/// Midway through a quiet pass the elements are untouched and the current
/// cell still holds its old charge.
proof fn lemma_progress_els(oc: Seq<Cell>, cur: Seq<Cell>, x: int, y: int)
    requires
        charge_progress(oc, cur, x, y),
        in_grid(x, y),
    ensures
        cur[cell_index(x, y)] == oc[cell_index(x, y)],
        forall|px: int, py: int|
            in_grid(px, py) ==> #[trigger] cur[cell_index(px, py)].el == oc[cell_index(px, py)].el,
{
    reveal(charge_progress);
    assert(cur[cell_index(x, y)] == oc[cell_index(x, y)]);
    assert forall|px: int, py: int| in_grid(px, py) implies #[trigger] cur[cell_index(px, py)].el
        == oc[cell_index(px, py)].el by {
        assert(cur[cell_index(px, py)].el == oc[cell_index(px, py)].el);
    }
}

/// A quiet grid: a charged conductor at (x, y) has no reactive neighbour.
proof fn lemma_quiet_here(oc: Seq<Cell>, x: int, y: int)
    requires
        quiet(oc),
        in_grid(x, y),
    ensures
        spec_conductive(oc[cell_index(x, y)].el) && oc[cell_index(x, y)].charge > 0 ==> {
            &&& !reactive(el_in(oc, x, y + 1))
            &&& !reactive(el_in(oc, x, y - 1))
            &&& !reactive(el_in(oc, x + 1, y))
            &&& !reactive(el_in(oc, x - 1, y))
        },
{
    reveal(quiet);
    assert(in_grid(x, y) ==> cell_index(x, y) == cell_index(x, y));
}

/// Where the elements agree, so do the neighbour readings of a quiet charge step.
proof fn lemma_same_els_charge(oc: Seq<Cell>, cur: Seq<Cell>, ch: Seq<u8>, nx: int, ny: int)
    requires
        oc.len() == CELLS,
        cur.len() == CELLS,
        ch.len() == CELLS,
        forall|j: int| 0 <= j < CELLS ==> ch[j] == #[trigger] oc[j].charge,
        forall|px: int, py: int|
            in_grid(px, py) ==> #[trigger] cur[cell_index(px, py)].el == oc[cell_index(px, py)].el,
    ensures
        el_in(cur, nx, ny) == el_in(oc, nx, ny),
        passed_now(cur, ch, nx, ny) == passed_charge(oc, nx, ny),
{
    if in_grid(nx, ny) {
        assert(cur[cell_index(nx, ny)].el == oc[cell_index(nx, ny)].el);
        assert(ch[cell_index(nx, ny)] == oc[cell_index(nx, ny)].charge);
    }
}

/// Finishing a row of the scan is starting the next.
proof fn lemma_row_done(oc: Seq<Cell>, cur: Seq<Cell>, y: int)
    requires
        charge_progress(oc, cur, W_I32 as int, y),
    ensures
        charge_progress(oc, cur, 0, y + 1),
{
    reveal(charge_progress);
    assert forall|px: int, py: int|
        #![trigger cell_index(px, py)]
        in_grid(px, py) implies before_in_scan(px, py, W_I32 as int, y) == before_in_scan(
        px,
        py,
        0,
        y + 1,
    ) by {}
}

/// At the start of the scan nothing has changed.
proof fn lemma_scan_start(oc: Seq<Cell>)
    ensures
        charge_progress(oc, oc, 0, 0),
{
    reveal(charge_progress);
    assert forall|px: int, py: int|
        #![trigger cell_index(px, py)]
        in_grid(px, py) implies oc[cell_index(px, py)] == (Cell {
        charge: oc[cell_index(px, py)].charge,
        ..oc[cell_index(px, py)]
    }) by {}
}

/// At the end of the scan every cell holds its next charge.
proof fn lemma_scan_end(oc: Seq<Cell>, cur: Seq<Cell>)
    requires
        charge_progress(oc, cur, 0, H_I32 as int),
    ensures
        forall|x: int, y: int|
            #![trigger cell_index(x, y)]
            in_grid(x, y) ==> cur[cell_index(x, y)] == (Cell {
                charge: next_charge(oc, x, y) as u8,
                ..oc[cell_index(x, y)]
            }),
{
    reveal(charge_progress);
    assert forall|x: int, y: int|
        #![trigger cell_index(x, y)]
        in_grid(x, y) implies cur[cell_index(x, y)] == (Cell {
        charge: next_charge(oc, x, y) as u8,
        ..oc[cell_index(x, y)]
    }) by {
        assert(before_in_scan(x, y, 0, H_I32 as int));
    }
}

/// Has the row-major scan passed (x, y) when it stands at (cx, cy)?
pub open spec fn before_in_scan(x: int, y: int, cx: int, cy: int) -> bool {
    y < cy || (y == cy && x < cx)
}

/// `b` is `a` after the charge pass: every cell visited once in row-major
/// order, and on a quiet grid exactly the one-cell-per-frame charge wave.
pub open spec fn charge_step(a: World, b: World) -> bool {
    &&& local_step(a, b)
    &&& exists|t: Seq<World>| #[trigger] charge_trace(a, b, t)
    &&& quiet(a.cells@) ==> b.temp@ == a.temp@
    &&& quiet(a.cells@) ==> forall|x: int, y: int|
        #![trigger cell_index(x, y)]
        in_grid(x, y) ==> b.cells@[cell_index(x, y)] == (Cell {
            charge: next_charge(a.cells@, x, y) as u8,
            ..a.cells@[cell_index(x, y)]
        })
}

/// The temperature field of `a` after its heat sources emit.
pub open spec fn emitted_field(a: World) -> Seq<i32> {
    Seq::new(CELLS as nat, |i: int| emitted(a.cells@[i].el, a.temp@[i]))
}

/// `d` holds the cells of `a` and its emitted field diffused one step.
pub open spec fn diffused_from(a: World, d: World) -> bool {
    &&& d.wf()
    &&& d.frame == a.frame
    &&& d.cells@ == a.cells@
    &&& forall|x: int, y: int|
        #![trigger cell_index(x, y)]
        in_grid(x, y) ==> d.temp@[cell_index(x, y)] == diffused(emitted_field(a), x, y)
}

/// `b` is `a` after the heat pass: sources emit, the field diffuses, then a
/// phase change is applied at every cell in row-major order.
pub open spec fn heat_step(a: World, b: World) -> bool {
    &&& local_step(a, b)
    &&& exists|d: World, t: Seq<World>|
        #![trigger diffused_from(a, d), phase_trace(d, b, t)]
        diffused_from(a, d) && local_step(d, b) && phase_trace(d, b, t)
}

impl World {
    /// The charge that the conductor at (nx, ny) passes on, by the element
    /// there now and the charge it held at the start of the pass.
    fn passed_from(&self, old_ch: &Vec<u8>, nx: i32, ny: i32) -> (r: u8)
        requires
            self.wf(),
            old_ch@.len() == CELLS,
        ensures
            r == (if in_grid(nx as int, ny as int) && spec_conductive(
                self.cells@[cell_index(nx as int, ny as int)].el,
            ) && old_ch@[cell_index(nx as int, ny as int)] > 1 {
                old_ch@[cell_index(nx as int, ny as int)] - 1
            } else {
                0
            }),
    {
        if in_bounds(nx, ny) {
            let j = idx(nx, ny);
            if conductive(self.cells[j].el) && old_ch[j] > 1 {
                return old_ch[j] - 1;
            }
        }
        0
    }

    /// A firing conductor sets off its neighbour at (nx, ny): gunpowder and
    /// oil burst into flame, bombs explode.
    fn fire_into(&mut self, nx: i32, ny: i32)
        requires
            old(self).wf(),
        ensures
            local_step(*old(self), *final(self)),
            set_off(*old(self), *final(self), nx as int, ny as int),
    {
        match self.el_at(nx, ny) {
            Element::Gunpowder => {
                self.spawn(nx, ny, Element::Fire, 60);
                proof {
                    lemma_replace_keeps_walls(
                        old(self).cells@,
                        self.cells@,
                        cell_index(nx as int, ny as int),
                    );
                }
            },
            Element::Oil => {
                self.spawn(nx, ny, Element::Fire, 70);
                proof {
                    lemma_replace_keeps_walls(
                        old(self).cells@,
                        self.cells@,
                        cell_index(nx as int, ny as int),
                    );
                }
            },
            Element::Bomb => self.explode(nx, ny, 16),
            _ => {},
        }
    }

    /// Propagates electrical charge one cell per frame through conductors.
    /// Every cell is visited in row-major order against a snapshot of the
    /// charges: a charged conductor fires (setting off reactive neighbours)
    /// and goes quiet; an uncharged one picks up the strongest neighbouring
    /// charge minus one; non-conductors lose any charge. When no charged
    /// conductor touches anything reactive, nothing but the charges changes
    /// and each becomes `next_charge` of the old grid.
    pub(crate) fn charge_pass(&mut self)
        requires
            old(self).wf(),
        ensures
            charge_step(*old(self), *final(self)),
    {
        let mut old_ch: Vec<u8> = Vec::new();
        let mut k: usize = 0;
        while k < CELLS
            invariant
                self.wf(),
                k <= CELLS,
                self.cells@ == old(self).cells@,
                old_ch@.len() == k,
                forall|j: int| 0 <= j < k ==> old_ch@[j] == #[trigger] old(self).cells@[j].charge,
            decreases CELLS - k,
        {
            old_ch.push(self.cells[k].charge);
            k = k + 1;
        }
        proof {
            lemma_scan_start(old(self).cells@);
            assert(old_ch@ =~= charges(*old(self)));
        }
        let ghost mut trace: Seq<World> = seq![*self];
        let mut y: i32 = 0;
        while y < H_I32
            invariant
                0 <= y <= H_I32,
                local_step(*old(self), *self),
                old_ch@.len() == CELLS,
                forall|j: int| 0 <= j < CELLS ==> old_ch@[j] == #[trigger] old(self).cells@[j].charge,
                old_ch@ == charges(*old(self)),
                quiet(old(self).cells@) ==> self.temp@ == old(self).temp@,
                quiet(old(self).cells@) ==> charge_progress(old(self).cells@, self.cells@, 0, y as int),
                trace.len() == y * W_I32 + 1,
                trace[0] == *old(self),
                trace.last() == *self,
                forall|k: int|
                    0 <= k < trace.len() - 1 ==> #[trigger] charge_link(trace, old_ch@, k),
            decreases H_I32 - y,
        {
            let mut x: i32 = 0;
            while x < W_I32
                invariant
                    0 <= y < H_I32,
                    0 <= x <= W_I32,
                    local_step(*old(self), *self),
                    old_ch@.len() == CELLS,
                    forall|j: int|
                        0 <= j < CELLS ==> old_ch@[j] == #[trigger] old(self).cells@[j].charge,
                    old_ch@ == charges(*old(self)),
                    quiet(old(self).cells@) ==> self.temp@ == old(self).temp@,
                    quiet(old(self).cells@) ==> charge_progress(
                        old(self).cells@,
                        self.cells@,
                        x as int,
                        y as int,
                    ),
                    trace.len() == y * W_I32 + x + 1,
                    trace[0] == *old(self),
                    trace.last() == *self,
                    forall|k: int|
                        0 <= k < trace.len() - 1 ==> #[trigger] charge_link(trace, old_ch@, k),
                decreases W_I32 - x,
            {
                let ghost cur = self.cells@;
                self.charge_cell(&old_ch, x, y);
                proof {
                    if quiet(old(self).cells@) {
                        lemma_charge_step(old(self).cells@, cur, self.cells@, old_ch@, x as int, y as int);
                    }
                    let k = trace.len() - 1;
                    lemma_row_major(k, x as int, y as int);
                    let prev = trace;
                    trace = trace.push(*self);
                    assert forall|j: int| 0 <= j < trace.len() - 1 implies #[trigger] charge_link(
                        trace,
                        old_ch@,
                        j,
                    ) by {
                        if j < k {
                            assert(charge_link(prev, old_ch@, j));
                        }
                    }
                }
                x = x + 1;
            }
            proof {
                if quiet(old(self).cells@) {
                    lemma_row_done(old(self).cells@, self.cells@, y as int);
                }
            }
            y = y + 1;
        }
        proof {
            if quiet(old(self).cells@) {
                lemma_scan_end(old(self).cells@, self.cells@);
            }
            assert(charge_trace(*old(self), *self, trace));
        }
    }

    /// One cell of the charge pass.
    fn charge_cell(&mut self, old_ch: &Vec<u8>, x: i32, y: i32)
        requires
            old(self).wf(),
            in_grid(x as int, y as int),
            old_ch@.len() == CELLS,
        ensures
            local_step(*old(self), *final(self)),
            charged_cell(*old(self), *final(self), old_ch@, x as int, y as int),
            quiet_at(old(self).cells@, old_ch@, x as int, y as int) ==> {
                &&& final(self).temp@ == old(self).temp@
                &&& final(self).cells@ == old(self).cells@.update(
                    cell_index(x as int, y as int),
                    Cell {
                        charge: charge_formula(old(self).cells@, old_ch@, x as int, y as int) as u8,
                        ..old(self).cells@[cell_index(x as int, y as int)]
                    },
                )
            },
    {
        let i = idx(x, y);
        let el = self.cells[i].el;
        if !conductive(el) {
            let mut c = self.cells[i];
            c.charge = 0;
            self.cells.set(i, c);
            proof {
                lemma_replace_keeps_walls(old(self).cells@, self.cells@, i as int);
            }
            return;
        }
        if old_ch[i] > 0 {
            self.fire_into(x, y + 1);
            let ghost a = *self;
            self.fire_into(x, y - 1);
            let ghost b = *self;
            self.fire_into(x + 1, y);
            let ghost d = *self;
            self.fire_into(x - 1, y);
            let ghost e = *self;
            let mut c = self.cells[i];
            c.charge = 0;
            self.cells.set(i, c);
            assert(fired(*old(self), a, b, d, e, x as int, y as int));
            proof {
                lemma_replace_keeps_walls(e.cells@, self.cells@, i as int);
                lemma_walls_trans(old(self).cells@, a.cells@, b.cells@);
                lemma_walls_trans(old(self).cells@, b.cells@, d.cells@);
                lemma_walls_trans(old(self).cells@, d.cells@, e.cells@);
                lemma_walls_trans(old(self).cells@, e.cells@, self.cells@);
            }
            return;
        }
        let p0 = self.passed_from(old_ch, x, y + 1);
        let p1 = self.passed_from(old_ch, x, y - 1);
        let p2 = self.passed_from(old_ch, x + 1, y);
        let p3 = self.passed_from(old_ch, x - 1, y);
        let mut nc: u8 = 0;
        nc = if nc >= p0 { nc } else { p0 };
        nc = if nc >= p1 { nc } else { p1 };
        nc = if nc >= p2 { nc } else { p2 };
        nc = if nc >= p3 { nc } else { p3 };
        let mut c = self.cells[i];
        c.charge = nc;
        self.cells.set(i, c);
        proof {
            lemma_replace_keeps_walls(old(self).cells@, self.cells@, i as int);
        }
    }
}

/// `n` is `o` after a firing conductor sets off the cell at (nx, ny):
/// gunpowder becomes fire (life 60), oil becomes fire (life 70), a bomb
/// explodes with radius 16, anything else is left alone.
pub open spec fn set_off(o: World, n: World, nx: int, ny: int) -> bool {
    let el = o.el_of(nx, ny);
    if el == Element::Gunpowder {
        spawned_at(o.cells@, o.temp@, n.cells@, n.temp@, cell_index(nx, ny), Element::Fire, 60)
    } else if el == Element::Oil {
        spawned_at(o.cells@, o.temp@, n.cells@, n.temp@, cell_index(nx, ny), Element::Fire, 70)
    } else if el == Element::Bomb {
        blasted(o, n, nx, ny, 16)
    } else {
        n.cells@ == o.cells@ && n.temp@ == o.temp@
    }
}

/// The conductor at (x, y) of `o` sets off its neighbours below, above,
/// right and left in turn, passing through `a`, `b` and `d` to `e`.
pub open spec fn fired(o: World, a: World, b: World, d: World, e: World, x: int, y: int) -> bool {
    &&& set_off(o, a, x, y + 1)
    &&& set_off(a, b, x, y - 1)
    &&& set_off(b, d, x + 1, y)
    &&& set_off(d, e, x - 1, y)
}

/// `c` with its charge set to `v`.
pub open spec fn with_charge(c: Cell, v: int) -> Cell {
    Cell { charge: v as u8, ..c }
}

/// `n` is `o` after the charge pass visits (x, y), with `ch` the charges at
/// the start of the pass: a non-conductor loses its charge; a charged
/// conductor sets off its neighbours and goes quiet; an uncharged one takes
/// the strongest charge passed to it.
pub open spec fn charged_cell(o: World, n: World, ch: Seq<u8>, x: int, y: int) -> bool {
    let i = cell_index(x, y);
    if !spec_conductive(o.cells@[i].el) {
        n.cells@ == o.cells@.update(i, with_charge(o.cells@[i], 0)) && n.temp@ == o.temp@
    } else if ch[i] > 0 {
        exists|a: World, b: World, d: World, e: World|
            #[trigger] fired(o, a, b, d, e, x, y) && n.cells@ == e.cells@.update(
                i,
                with_charge(e.cells@[i], 0),
            ) && n.temp@ == e.temp@
    } else {
        n.cells@ == o.cells@.update(i, with_charge(o.cells@[i], charge_formula(o.cells@, ch, x, y)))
            && n.temp@ == o.temp@
    }
}

/// Position `k` of a row-major scan: rows from the top, each left to right.
pub open spec fn row_major(k: int) -> (int, int) {
    (k % (W as int), k / (W as int))
}

/// The charges of `a`'s cells.
pub open spec fn charges(a: World) -> Seq<u8> {
    Seq::new(CELLS as nat, |j: int| a.cells@[j].charge)
}

/// Step `k` of a charge trace visits the cell at row-major position `k`.
pub open spec fn charge_link(t: Seq<World>, ch: Seq<u8>, k: int) -> bool {
    charged_cell(t[k], t[k + 1], ch, row_major(k).0, row_major(k).1)
}

/// `t` leads from `a` to `b` by visiting every cell once in row-major order,
/// against the charges `a` started with.
pub open spec fn charge_trace(a: World, b: World, t: Seq<World>) -> bool {
    &&& t.len() == CELLS + 1
    &&& t[0] == a
    &&& t[CELLS as int] == b
    &&& forall|k: int| 0 <= k < CELLS ==> #[trigger] charge_link(t, charges(a), k)
}

/// What a phase change does to the cell at (x, y) of `o`: it becomes the
/// element its temperature calls for; hot gunpowder explodes (radius 7);
/// otherwise nothing changes.
pub open spec fn phase_outcome(o: World, n: World, x: int, y: int) -> bool {
    let i = cell_index(x, y);
    let el = o.cells@[i].el;
    let t = o.temp@[i];
    match phase_target(el, t) {
        Some(e) => spawned_at(o.cells@, o.temp@, n.cells@, n.temp@, i, e, n.cells@[i].life)
            && phase_life_ok(el, e, n.cells@[i].life),
        None => if el == Element::Gunpowder && t >= 150_000 {
            blasted(o, n, x, y, 7)
        } else {
            n.cells@ == o.cells@ && n.temp@ == o.temp@
        },
    }
}

/// Step `k` of a phase trace visits the cell at row-major position `k`.
pub open spec fn phase_link(t: Seq<World>, k: int) -> bool {
    phase_outcome(t[k], t[k + 1], row_major(k).0, row_major(k).1)
}

/// `t` leads from `a` to `b` by a phase change at every cell, in row-major order.
pub open spec fn phase_trace(a: World, b: World, t: Seq<World>) -> bool {
    &&& t.len() == CELLS + 1
    &&& t[0] == a
    &&& t[CELLS as int] == b
    &&& forall|k: int| 0 <= k < CELLS ==> #[trigger] phase_link(t, k)
}

/// The charge passed from (nx, ny) by its element in `c` and its charge in `ch`.
pub open spec fn passed_now(c: Seq<Cell>, ch: Seq<u8>, nx: int, ny: int) -> int {
    if in_grid(nx, ny) && spec_conductive(c[cell_index(nx, ny)].el) && ch[cell_index(nx, ny)]
        > 1 {
        ch[cell_index(nx, ny)] - 1
    } else {
        0
    }
}

/// Heat sources hold their cell hot: fire at least 720 degrees, ember at least 520.
pub open spec fn emitted(el: Element, t: i32) -> i32 {
    if el == Element::Fire && t < 720_000 {
        720_000
    } else if el == Element::Ember && t < 520_000 {
        520_000
    } else {
        t
    }
}

/// Temperature of the neighbour (nx, ny) of (x, y) as diffusion sees it: the
/// world edge reflects the cell's own temperature, so no heat leaks out.
pub open spec fn edge_temp(t: Seq<i32>, x: int, y: int, nx: int, ny: int) -> int {
    if in_grid(nx, ny) {
        t[cell_index(nx, ny)] as int
    } else {
        t[cell_index(x, y)] as int
    }
}

/// Offset that makes every temperature non-negative (absolute zero).
pub open spec fn heat_offset() -> int {
    273_150
}

/// The temperature of (x, y) after one diffusion step: 14% of the way toward
/// the mean of its four neighbours, then 0.4% of the way back toward ambient,
/// each rounded down on the absolute scale.
pub open spec fn diffused(t: Seq<i32>, x: int, y: int) -> int {
    let k = heat_offset();
    let c = t[cell_index(x, y)] as int;
    let sum = edge_temp(t, x, y, x, y + 1) + edge_temp(t, x, y, x, y - 1) + edge_temp(
        t,
        x,
        y,
        x + 1,
        y,
    ) + edge_temp(t, x, y, x - 1, y);
    let d = (344 * (c + k) + 14 * (sum + 4 * k)) / 400;
    let e = (996 * d + 4 * (AMBIENT + k)) / 1000;
    e - k
}

/// The element a cell of `el` at temperature `t` changes into, if any.
pub open spec fn phase_target(el: Element, t: i32) -> Option<Element> {
    if (el == Element::Water || el == Element::SaltWater) && t >= 100_000 {
        Some(Element::Steam)
    } else if el == Element::Water && t <= 0 {
        Some(Element::Ice)
    } else if el == Element::Ice && t >= 2_000 {
        Some(Element::Water)
    } else if el == Element::Snow && t >= 2_000 {
        Some(Element::Water)
    } else if el == Element::Lava && t <= 560_000 {
        Some(Element::Stone)
    } else if el == Element::Wood && t >= 280_000 {
        Some(Element::Ember)
    } else if el == Element::Plant && t >= 180_000 {
        Some(Element::Ember)
    } else if el == Element::Oil && t >= 250_000 {
        Some(Element::Fire)
    } else if el == Element::Metal && t >= 1_200_000 {
        Some(Element::Lava)
    } else {
        None
    }
}

/// The lifetimes a cell of `el` changing into `target` may get.
pub open spec fn phase_life_ok(el: Element, target: Element, life: u8) -> bool {
    if target == Element::Steam {
        120 <= life < 220
    } else if el == Element::Wood {
        120 <= life < 220
    } else if el == Element::Plant {
        50 <= life < 110
    } else if el == Element::Oil {
        60 <= life < 110
    } else {
        life == 0
    }
}

impl World {
    /// Heat sources push their own temperature up.
    fn emit_heat(&mut self)
        requires
            old(self).wf(),
        ensures
            final(self).wf(),
            final(self).frame == old(self).frame,
            final(self).cells@ == old(self).cells@,
            forall|i: int|
                0 <= i < CELLS ==> #[trigger] final(self).temp@[i] == emitted(
                    old(self).cells@[i].el,
                    old(self).temp@[i],
                ),
    {
        let mut i: usize = 0;
        while i < CELLS
            invariant
                i <= CELLS,
                self.wf(),
                self.frame == old(self).frame,
                self.cells@ == old(self).cells@,
                forall|j: int|
                    0 <= j < CELLS ==> #[trigger] self.temp@[j] == if j < i {
                        emitted(old(self).cells@[j].el, old(self).temp@[j])
                    } else {
                        old(self).temp@[j]
                    },
            decreases CELLS - i,
        {
            match self.cells[i].el {
                Element::Fire => {
                    if self.temp[i] < 720_000 {
                        self.temp.set(i, 720_000);
                    }
                },
                Element::Ember => {
                    if self.temp[i] < 520_000 {
                        self.temp.set(i, 520_000);
                    }
                },
                _ => {},
            }
            i = i + 1;
        }
    }

    /// One diffusion step of the whole temperature field.
    fn diffuse_heat(&mut self)
        requires
            old(self).wf(),
        ensures
            final(self).wf(),
            final(self).frame == old(self).frame,
            final(self).cells@ == old(self).cells@,
            forall|x: int, y: int|
                #![trigger cell_index(x, y)]
                in_grid(x, y) ==> final(self).temp@[cell_index(x, y)] == diffused(
                    old(self).temp@,
                    x,
                    y,
                ),
    {
        let mut next: Vec<i32> = Vec::new();
        let mut y: i32 = 0;
        while y < H_I32
            invariant
                0 <= y <= H_I32,
                self.wf(),
                self.cells@ == old(self).cells@,
                self.temp@ == old(self).temp@,
                self.frame == old(self).frame,
                next@.len() == y * 320,
                temps_ok(next@),
                forall|px: int, py: int|
                    #![trigger cell_index(px, py)]
                    in_grid(px, py) && py < y ==> next@[cell_index(px, py)] == diffused(
                        old(self).temp@,
                        px,
                        py,
                    ),
            decreases H_I32 - y,
        {
            let mut x: i32 = 0;
            while x < W_I32
                invariant
                    0 <= y < H_I32,
                    0 <= x <= W_I32,
                    self.wf(),
                    self.cells@ == old(self).cells@,
                    self.temp@ == old(self).temp@,
                    self.frame == old(self).frame,
                    next@.len() == y * 320 + x,
                    temps_ok(next@),
                    forall|px: int, py: int|
                        #![trigger cell_index(px, py)]
                        in_grid(px, py) && (py < y || (py == y && px < x)) ==> next@[cell_index(
                            px,
                            py,
                        )] == diffused(old(self).temp@, px, py),
                decreases W_I32 - x,
            {
                let v = self.diffused_at(x, y);
                next.push(v);
                x = x + 1;
            }
            y = y + 1;
        }
        self.temp = next;
    }

    /// The diffused temperature of (x, y).
    fn diffused_at(&self, x: i32, y: i32) -> (v: i32)
        requires
            self.wf(),
            in_grid(x as int, y as int),
        ensures
            v == diffused(self.temp@, x as int, y as int),
            temp_ok(v),
    {
        let c = self.temp[idx(x, y)];
        let s0 = self.temp_or(x, y, x, y + 1);
        let s1 = self.temp_or(x, y, x, y - 1);
        let s2 = self.temp_or(x, y, x + 1, y);
        let s3 = self.temp_or(x, y, x - 1, y);
        let k: i64 = 273_150;
        let cs = (c as i64 + k) as u64;
        let sums = (s0 as i64 + s1 as i64 + s2 as i64 + s3 as i64 + 4 * k) as u64;
        let d: u64 = (344 * cs + 14 * sums) / 400;
        let e: u64 = (996 * d + 4 * (AMBIENT as i64 + k) as u64) / 1000;
        proof {
            lemma_diffusion_bounds(c as int, s0 as int, s1 as int, s2 as int, s3 as int);
        }
        (e as i64 - k) as i32
    }

    /// The temperature of (nx, ny), or of (x, y) past the world edge.
    fn temp_or(&self, x: i32, y: i32, nx: i32, ny: i32) -> (t: i32)
        requires
            self.wf(),
            in_grid(x as int, y as int),
        ensures
            t == edge_temp(self.temp@, x as int, y as int, nx as int, ny as int),
            temp_ok(t),
    {
        if in_bounds(nx, ny) {
            self.temp[idx(nx, ny)]
        } else {
            self.temp[idx(x, y)]
        }
    }

    /// Applies the phase change that the temperature of (x, y) calls for.
    fn phase_change(&mut self, x: i32, y: i32)
        requires
            old(self).wf(),
            in_grid(x as int, y as int),
        ensures
            local_step(*old(self), *final(self)),
            phase_outcome(*old(self), *final(self), x as int, y as int),
    {
        let i = idx(x, y);
        let t = self.temp[i];
        let el = self.cells[i].el;
        if (el == Element::Water || el == Element::SaltWater) && t >= 100_000 {
            let life = gen_range(120, 220) as u8;
            self.respawn(x, y, Element::Steam, life);
        } else if el == Element::Water && t <= 0 {
            self.respawn(x, y, Element::Ice, 0);
        } else if el == Element::Ice && t >= 2_000 {
            self.respawn(x, y, Element::Water, 0);
        } else if el == Element::Snow && t >= 2_000 {
            self.respawn(x, y, Element::Water, 0);
        } else if el == Element::Lava && t <= 560_000 {
            self.respawn(x, y, Element::Stone, 0);
        } else if el == Element::Wood && t >= 280_000 {
            let life = gen_range(120, 220) as u8;
            self.respawn(x, y, Element::Ember, life);
        } else if el == Element::Plant && t >= 180_000 {
            let life = gen_range(50, 110) as u8;
            self.respawn(x, y, Element::Ember, life);
        } else if el == Element::Oil && t >= 250_000 {
            let life = gen_range(60, 110) as u8;
            self.respawn(x, y, Element::Fire, life);
        } else if el == Element::Gunpowder && t >= 150_000 {
            self.explode(x, y, 7);
        } else if el == Element::Metal && t >= 1_200_000 {
            self.respawn(x, y, Element::Lava, 0);
        }
    }

    /// Applies phase changes across the grid, row by row.
    fn phase_pass(&mut self)
        requires
            old(self).wf(),
        ensures
            local_step(*old(self), *final(self)),
            exists|t: Seq<World>| #[trigger] phase_trace(*old(self), *final(self), t),
    {
        let ghost mut trace: Seq<World> = seq![*self];
        let mut y: i32 = 0;
        while y < H_I32
            invariant
                0 <= y <= H_I32,
                local_step(*old(self), *self),
                trace.len() == y * W_I32 + 1,
                trace[0] == *old(self),
                trace.last() == *self,
                forall|k: int| 0 <= k < trace.len() - 1 ==> #[trigger] phase_link(trace, k),
            decreases H_I32 - y,
        {
            let mut x: i32 = 0;
            while x < W_I32
                invariant
                    0 <= y < H_I32,
                    0 <= x <= W_I32,
                    local_step(*old(self), *self),
                    trace.len() == y * W_I32 + x + 1,
                    trace[0] == *old(self),
                    trace.last() == *self,
                    forall|k: int| 0 <= k < trace.len() - 1 ==> #[trigger] phase_link(trace, k),
                decreases W_I32 - x,
            {
                let ghost before = *self;
                self.phase_change(x, y);
                proof {
                    lemma_walls_trans(old(self).cells@, before.cells@, self.cells@);
                    let k = trace.len() - 1;
                    lemma_row_major(k, x as int, y as int);
                    let prev = trace;
                    trace = trace.push(*self);
                    assert forall|j: int| 0 <= j < trace.len() - 1 implies #[trigger] phase_link(
                        trace,
                        j,
                    ) by {
                        if j < k {
                            assert(phase_link(prev, j));
                        }
                    }
                }
                x = x + 1;
            }
            y = y + 1;
        }
        assert(phase_trace(*old(self), *self, trace));
    }

    /// Heat: emit from sources, diffuse, then apply phase changes.
    pub(crate) fn heat_pass(&mut self)
        requires
            old(self).wf(),
        ensures
            heat_step(*old(self), *final(self)),
    {
        self.emit_heat();
        assert(self.temp@ =~= emitted_field(*old(self)));
        self.diffuse_heat();
        let ghost d = *self;
        self.phase_pass();
        proof {
            lemma_walls_trans(old(self).cells@, d.cells@, self.cells@);
            assert(diffused_from(*old(self), d));
            let t = choose|t: Seq<World>| phase_trace(d, *self, t);
            assert(diffused_from(*old(self), d) && local_step(d, *self) && phase_trace(d, *self, t));
        }
    }
}

/// Position `k = y * W + x` of the row-major scan is (x, y).
proof fn lemma_row_major(k: int, x: int, y: int)
    requires
        0 <= x < W_I32,
        0 <= y,
        k == y * W_I32 + x,
    ensures
        row_major(k) == (x, y),
{
    vstd::arithmetic::div_mod::lemma_fundamental_div_mod_converse(k, W as int, y, x);
}

/// One diffusion step keeps temperatures within range.
proof fn lemma_diffusion_bounds(c: int, s0: int, s1: int, s2: int, s3: int)
    requires
        TEMP_MIN <= c <= TEMP_MAX,
        TEMP_MIN <= s0 <= TEMP_MAX,
        TEMP_MIN <= s1 <= TEMP_MAX,
        TEMP_MIN <= s2 <= TEMP_MAX,
        TEMP_MIN <= s3 <= TEMP_MAX,
    ensures
        ({
            let k = heat_offset();
            let d = (344 * (c + k) + 14 * (s0 + s1 + s2 + s3 + 4 * k)) / 400;
            let e = (996 * d + 4 * (AMBIENT + k)) / 1000;
            &&& TEMP_MIN + k <= d <= TEMP_MAX + k
            &&& TEMP_MIN <= e - k <= TEMP_MAX
        }),
{
}

/// Grid width as `i32`.
pub const W_I32: i32 = 320;
/// Grid height as `i32`.
pub const H_I32: i32 = 200;

} // verus!
