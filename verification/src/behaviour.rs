//! Per-element behaviour: movement by category and the bespoke chemistry of
//! fire, embers, gases, acid, plants, ants, bombs and faucets.

use vstd::prelude::*;
use crate::element::{Cat, Element, dissolvable, props, spec_dissolvable, spec_props};
use crate::rng::{chance, gen_range};
use crate::world::{
    CELLS, Cell, H, W, World, brush_fits, can_go, cell_index, fresh_cell, idx, in_bounds, in_disc, in_grid, scanned,
    lemma_move_keeps_walls, lemma_replace_keeps_walls, lemma_walls_trans, local_step, moved_to,
    spawned_at, walls_kept,
};

verus! {

/// `new` is `old` with the cell at (x, y) moved into (nx, ny).
pub open spec fn went(old: World, new: World, x: int, y: int, nx: int, ny: int, going_down: bool) -> bool {
    moved_to(old.cells@, old.temp@, new.cells@, new.temp@, x, y, nx, ny, going_down)
}

/// `new` holds the same cells and temperatures as `old`.
pub open spec fn stayed(old: World, new: World) -> bool {
    new.cells@ == old.cells@ && new.temp@ == old.temp@
}

/// Could the cell at (x, y) of `w` move into (nx, ny)?
pub open spec fn could_go(w: World, x: int, y: int, nx: int, ny: int, going_down: bool) -> bool {
    can_go(w.cells@, x, y, nx, ny, going_down)
}

impl World {
    /// Powder: fall straight down, else diagonally down (random side first).
    pub(crate) fn update_powder(&mut self, x: i32, y: i32) -> (moved: bool)
        requires
            old(self).wf(),
            in_grid(x as int, y as int),
        ensures
            final(self).wf(),
            final(self).frame == old(self).frame,
            powder_step(*old(self), *final(self), x as int, y as int),
            !moved ==> final(self).cells@ == old(self).cells@ && final(self).temp@ == old(
                self,
            ).temp@,
            !moved ==> !can_go(old(self).cells@, x as int, y as int, x as int, y + 1, true)
                && !can_go(old(self).cells@, x as int, y as int, x + 1, y + 1, true) && !can_go(
                old(self).cells@,
                x as int,
                y as int,
                x - 1,
                y + 1,
                true,
            ),
            can_go(old(self).cells@, x as int, y as int, x as int, y + 1, true) ==> moved
                && moved_to(
                old(self).cells@,
                old(self).temp@,
                final(self).cells@,
                final(self).temp@,
                x as int,
                y as int,
                x as int,
                y + 1,
                true,
            ),
            moved ==> {
                ||| moved_to(
                    old(self).cells@,
                    old(self).temp@,
                    final(self).cells@,
                    final(self).temp@,
                    x as int,
                    y as int,
                    x as int,
                    y + 1,
                    true,
                )
                ||| moved_to(
                    old(self).cells@,
                    old(self).temp@,
                    final(self).cells@,
                    final(self).temp@,
                    x as int,
                    y as int,
                    x + 1,
                    y + 1,
                    true,
                )
                ||| moved_to(
                    old(self).cells@,
                    old(self).temp@,
                    final(self).cells@,
                    final(self).temp@,
                    x as int,
                    y as int,
                    x - 1,
                    y + 1,
                    true,
                )
            },
    {
        if self.try_move(x, y, x, y + 1, true) {
            return true;
        }
        let d: i32 = if chance(2) {
            1
        } else {
            -1
        };
        if self.try_move(x, y, x + d, y + 1, true) {
            return true;
        }
        if self.try_move(x, y, x - d, y + 1, true) {
            return true;
        }
        false
    }

    /// Liquid: fall straight down, else diagonally down, else spread sideways
    /// (random side first).
    pub(crate) fn update_liquid(&mut self, x: i32, y: i32) -> (moved: bool)
        requires
            old(self).wf(),
            in_grid(x as int, y as int),
        ensures
            final(self).wf(),
            final(self).frame == old(self).frame,
            liquid_step(*old(self), *final(self), x as int, y as int),
            !moved ==> stayed(*old(self), *final(self)),
            !moved ==> {
                &&& !could_go(*old(self), x as int, y as int, x as int, y + 1, true)
                &&& !could_go(*old(self), x as int, y as int, x + 1, y + 1, true)
                &&& !could_go(*old(self), x as int, y as int, x - 1, y + 1, true)
                &&& !could_go(*old(self), x as int, y as int, x + 1, y as int, true)
                &&& !could_go(*old(self), x as int, y as int, x - 1, y as int, true)
            },
            could_go(*old(self), x as int, y as int, x as int, y + 1, true) ==> moved && went(
                *old(self),
                *final(self),
                x as int,
                y as int,
                x as int,
                y + 1,
                true,
            ),
            moved ==> {
                ||| went(*old(self), *final(self), x as int, y as int, x as int, y + 1, true)
                ||| went(*old(self), *final(self), x as int, y as int, x + 1, y + 1, true)
                ||| went(*old(self), *final(self), x as int, y as int, x - 1, y + 1, true)
                ||| went(*old(self), *final(self), x as int, y as int, x + 1, y as int, true)
                ||| went(*old(self), *final(self), x as int, y as int, x - 1, y as int, true)
            },
    {
        if self.try_move(x, y, x, y + 1, true) {
            return true;
        }
        let d: i32 = if chance(2) {
            1
        } else {
            -1
        };
        if self.try_move(x, y, x + d, y + 1, true) {
            return true;
        }
        if self.try_move(x, y, x - d, y + 1, true) {
            return true;
        }
        if self.flow_side(x, y, d) {
            return true;
        }
        if self.flow_side(x, y, -d) {
            return true;
        }
        false
    }

    /// Gas: buoyant rise, else diagonally up (random side first), else a lazy
    /// sideways drift half of the time.
    pub(crate) fn update_gas(&mut self, x: i32, y: i32) -> (moved: bool)
        requires
            old(self).wf(),
            in_grid(x as int, y as int),
        ensures
            final(self).wf(),
            final(self).frame == old(self).frame,
            gas_step(*old(self), *final(self), x as int, y as int),
            !moved ==> stayed(*old(self), *final(self)),
            !moved ==> {
                &&& !could_go(*old(self), x as int, y as int, x as int, y - 1, false)
                &&& !could_go(*old(self), x as int, y as int, x + 1, y - 1, false)
                &&& !could_go(*old(self), x as int, y as int, x - 1, y - 1, false)
            },
            could_go(*old(self), x as int, y as int, x as int, y - 1, false) ==> moved && went(
                *old(self),
                *final(self),
                x as int,
                y as int,
                x as int,
                y - 1,
                false,
            ),
            moved ==> {
                ||| went(*old(self), *final(self), x as int, y as int, x as int, y - 1, false)
                ||| went(*old(self), *final(self), x as int, y as int, x + 1, y - 1, false)
                ||| went(*old(self), *final(self), x as int, y as int, x - 1, y - 1, false)
                ||| went(*old(self), *final(self), x as int, y as int, x + 1, y as int, true)
                ||| went(*old(self), *final(self), x as int, y as int, x - 1, y as int, true)
            },
    {
        if self.try_move(x, y, x, y - 1, false) {
            return true;
        }
        let d: i32 = if chance(2) {
            1
        } else {
            -1
        };
        if self.try_move(x, y, x + d, y - 1, false) {
            return true;
        }
        if self.try_move(x, y, x - d, y - 1, false) {
            return true;
        }
        if chance(2) && self.flow_side(x, y, d) {
            return true;
        }
        false
    }

    /// A move attempt by a non-wall cell keeps walls.
    proof fn lemma_attempt_keeps_walls(old: World, new: World, x: int, y: int, moved: bool)
        requires
            old.wf(),
            in_grid(x, y),
            old.cells@[cell_index(x, y)].el != Element::Wall,
            !moved ==> stayed(old, new),
            moved ==> {
                ||| went(old, new, x, y, x, y + 1, true)
                ||| went(old, new, x, y, x + 1, y + 1, true)
                ||| went(old, new, x, y, x - 1, y + 1, true)
                ||| went(old, new, x, y, x + 1, y, true)
                ||| went(old, new, x, y, x - 1, y, true)
                ||| went(old, new, x, y, x, y - 1, false)
                ||| went(old, new, x, y, x + 1, y - 1, false)
                ||| went(old, new, x, y, x - 1, y - 1, false)
            },
        ensures
            walls_kept(old.cells@, new.cells@),
    {
        let oc = old.cells@;
        let ot = old.temp@;
        let nc = new.cells@;
        let nt = new.temp@;
        if !moved {
            assert(walls_kept(oc, nc));
        } else if went(old, new, x, y, x, y + 1, true) {
            lemma_move_keeps_walls(oc, ot, nc, nt, x, y, x, y + 1, true);
        } else if went(old, new, x, y, x + 1, y + 1, true) {
            lemma_move_keeps_walls(oc, ot, nc, nt, x, y, x + 1, y + 1, true);
        } else if went(old, new, x, y, x - 1, y + 1, true) {
            lemma_move_keeps_walls(oc, ot, nc, nt, x, y, x - 1, y + 1, true);
        } else if went(old, new, x, y, x + 1, y, true) {
            lemma_move_keeps_walls(oc, ot, nc, nt, x, y, x + 1, y, true);
        } else if went(old, new, x, y, x - 1, y, true) {
            lemma_move_keeps_walls(oc, ot, nc, nt, x, y, x - 1, y, true);
        } else if went(old, new, x, y, x, y - 1, false) {
            lemma_move_keeps_walls(oc, ot, nc, nt, x, y, x, y - 1, false);
        } else if went(old, new, x, y, x + 1, y - 1, false) {
            lemma_move_keeps_walls(oc, ot, nc, nt, x, y, x + 1, y - 1, false);
        } else {
            lemma_move_keeps_walls(oc, ot, nc, nt, x, y, x - 1, y - 1, false);
        }
    }
}

/// `new` is `old` with the cell at `i` emptied.
pub open spec fn emptied(old: World, new: World, i: int) -> bool {
    new.cells@ == old.cells@.update(i, Cell::spec_empty()) && new.temp@ == old.temp@
}

/// `new` is `old` with a fresh `el` placed at (x, y), its lifetime in `lo..hi`.
pub open spec fn placed(old: World, new: World, x: int, y: int, el: Element, lo: int, hi: int) -> bool {
    let i = cell_index(x, y);
    &&& in_grid(x, y)
    &&& spawned_at(old.cells@, old.temp@, new.cells@, new.temp@, i, el, new.cells@[i].life)
    &&& lo <= new.cells@[i].life < hi
}

/// `new` is `old` with the life of the cell at `i` one shorter.
pub open spec fn aged(old: World, new: World, i: int) -> bool {
    &&& new.cells@ == old.cells@.update(
        i,
        Cell { life: (old.cells@[i].life - 1) as u8, ..old.cells@[i] },
    )
    &&& new.temp@ == old.temp@
}

/// `m` is `o` with a plant grown into the empty neighbour of (x, y) in growth direction `k`.
pub open spec fn grew(o: World, m: World, x: int, y: int, k: int) -> bool {
    let (nx, ny) = (x + growth_dir(k).0, y + growth_dir(k).1);
    &&& 0 <= k < 4
    &&& o.el_of(nx, ny) == Element::Empty
    &&& placed(o, m, nx, ny, Element::Plant, 0, 1)
}

/// `n` is `m` with the first watery neighbour of (x, y) (below, right, left,
/// above) drunk dry, if there is one.
pub open spec fn drank(m: World, n: World, x: int, y: int) -> bool {
    if m.el_of(x, y + 1) == Element::Water {
        emptied(m, n, cell_index(x, y + 1))
    } else if m.el_of(x + 1, y) == Element::Water {
        emptied(m, n, cell_index(x + 1, y))
    } else if m.el_of(x - 1, y) == Element::Water {
        emptied(m, n, cell_index(x - 1, y))
    } else if m.el_of(x, y - 1) == Element::Water {
        emptied(m, n, cell_index(x, y - 1))
    } else {
        stayed(m, n)
    }
}

/// What `grow_plant` does: grow into the empty cell in direction `k`, then
/// drink if `drink`; nothing if that cell is not empty.
pub open spec fn plant_grown(o: World, n: World, x: int, y: int, k: int, drink: bool) -> bool {
    if o.el_of(x + growth_dir(k).0, y + growth_dir(k).1) == Element::Empty {
        exists|m: World|
            #[trigger] grew(o, m, x, y, k) && if drink {
                drank(m, n, x, y)
            } else {
                stayed(m, n)
            }
    } else {
        stayed(o, n)
    }
}

/// Is `el` ant food?
pub open spec fn ant_food(el: Element) -> bool {
    el == Element::Plant || el == Element::Wood || el == Element::Sand || el == Element::Seed
        || el == Element::Ash
}

/// `b` is `a` with water dripped into the empty cell (x, y) if `go`; else `a`.
pub open spec fn dripped(a: World, b: World, x: int, y: int, go: bool) -> bool {
    if go && a.el_of(x, y) == Element::Empty {
        placed(a, b, x, y, Element::Water, 0, 1)
    } else {
        stayed(a, b)
    }
}

/// The four neighbour offsets in scan order: down, up, right, left.
pub open spec fn dir4(k: int) -> (i32, i32) {
    if k == 0 {
        (0i32, 1i32)
    } else if k == 1 {
        (0i32, -1i32)
    } else if k == 2 {
        (1i32, 0i32)
    } else {
        (-1i32, 0i32)
    }
}

fn neighbour_dir(k: usize) -> (d: (i32, i32))
    requires
        k < 4,
    ensures
        d == dir4(k as int),
{
    match k {
        0 => (0, 1),
        1 => (0, -1),
        2 => (1, 0),
        _ => (-1, 0),
    }
}

/// Directions a watered plant grows in: up twice as often, or sideways.
pub open spec fn growth_dir(k: int) -> (i32, i32) {
    if k == 0 {
        (0i32, -1i32)
    } else if k == 1 {
        (-1i32, 0i32)
    } else if k == 2 {
        (1i32, 0i32)
    } else {
        (0i32, -1i32)
    }
}

fn plant_dir(k: usize) -> (d: (i32, i32))
    requires
        k < 4,
    ensures
        d == growth_dir(k as int),
{
    match k {
        0 => (0, -1),
        1 => (-1, 0),
        2 => (1, 0),
        _ => (0, -1),
    }
}

/// What a blast leaves in a non-wall cell: fire, smoke or nothing, at 800 degrees.
pub open spec fn blast_effect(nc: Cell, nt: i32) -> bool {
    &&& nt == 800_000
    &&& {
        ||| fresh_cell(nc, Element::Fire, nc.life) && 40 <= nc.life < 100
        ||| fresh_cell(nc, Element::Smoke, nc.life) && 80 <= nc.life < 160
        ||| nc == Cell::spec_empty()
    }
}

impl World {
    /// Sets cell `i` to `c`, which is a wall exactly when the old cell was.
    pub(crate) fn replace_cell(&mut self, i: usize, c: Cell)
        requires
            old(self).wf(),
            i < CELLS,
            (old(self).cells@[i as int].el == Element::Wall) == (c.el == Element::Wall),
        ensures
            local_step(*old(self), *final(self)),
            final(self).cells@ == old(self).cells@.update(i as int, c),
            final(self).temp@ == old(self).temp@,
    {
        self.cells.set(i, c);
        proof {
            lemma_replace_keeps_walls(old(self).cells@, self.cells@, i as int);
        }
    }

    /// Spawns a non-wall element over a non-wall cell.
    pub(crate) fn respawn(&mut self, x: i32, y: i32, el: Element, life: u8)
        requires
            old(self).wf(),
            in_grid(x as int, y as int),
            old(self).cells@[cell_index(x as int, y as int)].el != Element::Wall,
            el != Element::Wall,
        ensures
            local_step(*old(self), *final(self)),
            spawned_at(
                old(self).cells@,
                old(self).temp@,
                final(self).cells@,
                final(self).temp@,
                cell_index(x as int, y as int),
                el,
                life,
            ),
    {
        self.spawn(x, y, el, life);
        proof {
            lemma_replace_keeps_walls(old(self).cells@, self.cells@, cell_index(x as int, y as int));
        }
    }

    /// Fire: snuffed into steam by water, acid or brine; burns down into smoke
    /// or nothing; otherwise rises like a gas.
    pub(crate) fn update_fire(&mut self, x: i32, y: i32)
        requires
            old(self).wf(),
            in_grid(x as int, y as int),
            old(self).cells@[cell_index(x as int, y as int)].el != Element::Wall,
        ensures
            local_step(*old(self), *final(self)),
            fire_outcome(*old(self), *final(self), x as int, y as int),
    {
        let steam_life = gen_range(60, 120) as u8;
        let smoke = chance(3);
        let smoke_life = gen_range(80, 160) as u8;
        self.fire_turn(x, y, steam_life, smoke, smoke_life);
        assert(fire_rule(*old(self), *self, x as int, y as int, steam_life, smoke, smoke_life));
    }

    /// One fire update for the given draws, as `fire_rule` says.
    pub(crate) fn fire_turn(&mut self, x: i32, y: i32, steam_life: u8, smoke: bool, smoke_life: u8)
        requires
            old(self).wf(),
            in_grid(x as int, y as int),
            old(self).cells@[cell_index(x as int, y as int)].el != Element::Wall,
        ensures
            local_step(*old(self), *final(self)),
            fire_rule(*old(self), *final(self), x as int, y as int, steam_life, smoke, smoke_life),
    {
        let i = idx(x, y);
        let wet = [Element::Water, Element::SaltWater, Element::Acid];
        assert(wet@ =~= seq![Element::Water, Element::SaltWater, Element::Acid]);
        if self.has_neighbor(x, y, &wet) {
            self.respawn(x, y, Element::Steam, steam_life);
            return;
        }
        let mut c = self.cells[i];
        if c.life <= 1 {
            if smoke {
                self.respawn(x, y, Element::Smoke, smoke_life);
            } else {
                self.replace_cell(i, Cell::empty());
            }
            return;
        }
        c.life = c.life - 1;
        self.replace_cell(i, c);
        let ghost mid = *self;
        assert(aged(*old(self), mid, i as int));
        let moved = self.update_gas(x, y);
        proof {
            Self::lemma_attempt_keeps_walls(mid, *self, x as int, y as int, moved);
            lemma_walls_trans(old(self).cells@, mid.cells@, self.cells@);
        }
    }

    /// Ember: doused into smoke by water; belches flame into open air above;
    /// burns down into ash or smoke.
    pub(crate) fn update_ember(&mut self, x: i32, y: i32)
        requires
            old(self).wf(),
            in_grid(x as int, y as int),
            old(self).cells@[cell_index(x as int, y as int)].el != Element::Wall,
        ensures
            local_step(*old(self), *final(self)),
            ember_outcome(*old(self), *final(self), x as int, y as int),
    {
        let flare = chance(3);
        let flare_life = gen_range(40, 90) as u8;
        let ash = chance(2);
        let smoke_life = gen_range(60, 120) as u8;
        self.ember_turn(x, y, flare, flare_life, ash, smoke_life);
        assert(ember_rule(*old(self), *self, x as int, y as int, flare, flare_life, ash, smoke_life));
    }

    /// One ember update for the given draws, as `ember_rule` says.
    pub(crate) fn ember_turn(&mut self, x: i32, y: i32, flare: bool, flare_life: u8, ash: bool, smoke_life: u8)
        requires
            old(self).wf(),
            in_grid(x as int, y as int),
            old(self).cells@[cell_index(x as int, y as int)].el != Element::Wall,
        ensures
            local_step(*old(self), *final(self)),
            ember_rule(*old(self), *final(self), x as int, y as int, flare, flare_life, ash, smoke_life),
    {
        let i = idx(x, y);
        if self.has_neighbor(x, y, &[Element::Water, Element::SaltWater]) {
            self.respawn(x, y, Element::Smoke, smoke_life);
            return;
        }
        if flare && self.el_at(x, y - 1) == Element::Empty {
            self.respawn(x, y - 1, Element::Fire, flare_life);
        }
        let ghost mid = *self;
        assert(sparked(*old(self), mid, x as int, y as int, flare, flare_life));
        assert(mid.cells@[i as int] == old(self).cells@[i as int]);
        let mut c = self.cells[i];
        if c.life <= 1 {
            if ash {
                self.respawn(x, y, Element::Ash, 0);
            } else {
                self.respawn(x, y, Element::Smoke, smoke_life);
            }
        } else {
            c.life = c.life - 1;
            self.replace_cell(i, c);
            assert(aged(mid, *self, i as int));
        }
        proof {
            lemma_walls_trans(old(self).cells@, mid.cells@, self.cells@);
        }
    }

    /// Smoke and toxic gas: fade away as their life runs out, drifting as gas.
    pub(crate) fn update_fading_gas(&mut self, x: i32, y: i32)
        requires
            old(self).wf(),
            in_grid(x as int, y as int),
            old(self).cells@[cell_index(x as int, y as int)].el != Element::Wall,
        ensures
            local_step(*old(self), *final(self)),
            fading_outcome(*old(self), *final(self), x as int, y as int),
    {
        let i = idx(x, y);
        let mut c = self.cells[i];
        if c.life == 0 {
            self.replace_cell(i, Cell::empty());
            return;
        }
        c.life = c.life - 1;
        self.replace_cell(i, c);
        let ghost mid = *self;
        assert(aged(*old(self), mid, i as int));
        let moved = self.update_gas(x, y);
        proof {
            Self::lemma_attempt_keeps_walls(mid, *self, x as int, y as int, moved);
            lemma_walls_trans(old(self).cells@, mid.cells@, self.cells@);
        }
    }

    /// Steam: condenses back into water (or vanishes) as it ages or cools
    /// below 90 degrees; otherwise rises as a gas.
    pub(crate) fn update_steam(&mut self, x: i32, y: i32)
        requires
            old(self).wf(),
            in_grid(x as int, y as int),
            old(self).cells@[cell_index(x as int, y as int)].el != Element::Wall,
        ensures
            local_step(*old(self), *final(self)),
            steam_outcome(*old(self), *final(self), x as int, y as int),
    {
        let early = chance(40);
        let to_water = chance(3);
        self.steam_turn(x, y, early, to_water);
        assert(steam_rule(*old(self), *self, x as int, y as int, early, to_water));
    }

    /// One steam update for the given draws, as `steam_rule` says.
    pub(crate) fn steam_turn(&mut self, x: i32, y: i32, early: bool, to_water: bool)
        requires
            old(self).wf(),
            in_grid(x as int, y as int),
            old(self).cells@[cell_index(x as int, y as int)].el != Element::Wall,
        ensures
            local_step(*old(self), *final(self)),
            steam_rule(*old(self), *final(self), x as int, y as int, early, to_water),
    {
        let i = idx(x, y);
        let mut c = self.cells[i];
        if c.life == 0 || (self.temp[i] < 90_000 && early) {
            if to_water {
                self.respawn(x, y, Element::Water, 0);
            } else {
                self.replace_cell(i, Cell::empty());
            }
            return;
        }
        c.life = c.life - 1;
        self.replace_cell(i, c);
        let ghost mid = *self;
        assert(aged(*old(self), mid, i as int));
        let moved = self.update_gas(x, y);
        proof {
            Self::lemma_attempt_keeps_walls(mid, *self, x as int, y as int, moved);
            lemma_walls_trans(old(self).cells@, mid.cells@, self.cells@);
        }
    }

    /// Salt: dissolves into brine next to water; otherwise falls as a powder.
    pub(crate) fn update_salt(&mut self, x: i32, y: i32)
        requires
            old(self).wf(),
            in_grid(x as int, y as int),
            old(self).cells@[cell_index(x as int, y as int)].el != Element::Wall,
        ensures
            local_step(*old(self), *final(self)),
            salt_outcome(*old(self), *final(self), x as int, y as int),
    {
        let dissolve = chance(3);
        self.salt_turn(x, y, dissolve);
        assert(salt_rule(*old(self), *self, x as int, y as int, dissolve));
    }

    /// One salt update for the given draw, as `salt_rule` says.
    pub(crate) fn salt_turn(&mut self, x: i32, y: i32, dissolve: bool)
        requires
            old(self).wf(),
            in_grid(x as int, y as int),
            old(self).cells@[cell_index(x as int, y as int)].el != Element::Wall,
        ensures
            local_step(*old(self), *final(self)),
            salt_rule(*old(self), *final(self), x as int, y as int, dissolve),
    {
        let water = [Element::Water];
        assert(water@ =~= seq![Element::Water]);
        if dissolve && self.has_neighbor(x, y, &water) {
            self.respawn(x, y, Element::SaltWater, 0);
            return;
        }
        let moved = self.update_powder(x, y);
        proof {
            Self::lemma_attempt_keeps_walls(*old(self), *self, x as int, y as int, moved);
        }
    }

    /// Acid: eats a random dissolvable neighbour (sometimes venting toxic gas),
    /// using itself up; otherwise flows as a liquid.
    pub(crate) fn update_acid(&mut self, x: i32, y: i32)
        requires
            old(self).wf(),
            in_grid(x as int, y as int),
            old(self).cells@[cell_index(x as int, y as int)].el != Element::Wall,
        ensures
            local_step(*old(self), *final(self)),
            acid_outcome(*old(self), *final(self), x as int, y as int),
    {
        let k = gen_range(0, 4) as usize;
        let eat = chance(3);
        let vent = chance(4);
        let toxic_life = gen_range(60, 120) as u8;
        self.acid_turn(x, y, k, eat, vent, toxic_life);
        assert(acid_rule(*old(self), *self, x as int, y as int, k as int, eat, vent, toxic_life));
    }

    /// One acid update for the given draws, as `acid_rule` says.
    pub(crate) fn acid_turn(&mut self, x: i32, y: i32, k: usize, eat: bool, vent: bool, toxic_life: u8)
        requires
            old(self).wf(),
            in_grid(x as int, y as int),
            old(self).cells@[cell_index(x as int, y as int)].el != Element::Wall,
            k < 4,
        ensures
            local_step(*old(self), *final(self)),
            acid_rule(*old(self), *final(self), x as int, y as int, k as int, eat, vent, toxic_life),
    {
        let i = idx(x, y);
        let (dx, dy) = neighbour_dir(k);
        let nx = x + dx;
        let ny = y + dy;
        if in_bounds(nx, ny) {
            let j = idx(nx, ny);
            let target = self.cells[j].el;
            if dissolvable(target) && eat {
                if vent {
                    self.respawn(nx, ny, Element::Toxic, toxic_life);
                } else {
                    self.replace_cell(j, Cell::empty());
                }
                let ghost mid = *self;
                assert(ate_away(*old(self), mid, nx as int, ny as int, vent, toxic_life));
                assert(mid.cells@[i as int] == old(self).cells@[i as int]);
                let mut c = self.cells[i];
                if c.life <= 1 {
                    self.replace_cell(i, Cell::empty());
                } else {
                    c.life = c.life - 1;
                    self.replace_cell(i, c);
                    assert(aged(mid, *self, i as int));
                }
                proof {
                    lemma_walls_trans(old(self).cells@, mid.cells@, self.cells@);
                }
                return;
            }
        }
        let moved = self.update_liquid(x, y);
        proof {
            Self::lemma_attempt_keeps_walls(*old(self), *self, x as int, y as int, moved);
        }
    }

    /// Plant: grows into a nearby empty cell when watered, sometimes drinking
    /// a neighbouring water cell.
    pub(crate) fn update_plant(&mut self, x: i32, y: i32)
        requires
            old(self).wf(),
            in_grid(x as int, y as int),
            old(self).cells@[cell_index(x as int, y as int)].el != Element::Wall,
        ensures
            local_step(*old(self), *final(self)),
            plant_outcome(*old(self), *final(self), x as int, y as int),
    {
        let grow = chance(14);
        let k = gen_range(0, 4) as usize;
        let drink = chance(3);
        let wet = [Element::Water, Element::SaltWater];
        assert(wet@ =~= seq![Element::Water, Element::SaltWater]);
        if grow && self.has_neighbor(x, y, &wet) {
            self.grow_plant(x, y, k, drink);
        }
        assert(plant_rule(*old(self), *self, x as int, y as int, grow, k as int, drink));
    }

    /// A watered plant at (x, y) grows in growth direction `k` if that cell is
    /// empty, and then, if `drink`, drinks its first watery neighbour.
    pub(crate) fn grow_plant(&mut self, x: i32, y: i32, k: usize, drink: bool)
        requires
            old(self).wf(),
            in_grid(x as int, y as int),
            k < 4,
        ensures
            local_step(*old(self), *final(self)),
            plant_grown(*old(self), *final(self), x as int, y as int, k as int, drink),
    {
        let (dx, dy) = plant_dir(k);
        let nx = x + dx;
        let ny = y + dy;
        if self.el_at(nx, ny) == Element::Empty {
            self.respawn(nx, ny, Element::Plant, 0);
            let ghost grown = *self;
            assert(grew(*old(self), grown, x as int, y as int, k as int));
            if drink {
                let ghost mid = *self;
                if self.el_at(x, y + 1) == Element::Water {
                    self.replace_cell(idx(x, y + 1), Cell::empty());
                } else if self.el_at(x + 1, y) == Element::Water {
                    self.replace_cell(idx(x + 1, y), Cell::empty());
                } else if self.el_at(x - 1, y) == Element::Water {
                    self.replace_cell(idx(x - 1, y), Cell::empty());
                } else if self.el_at(x, y - 1) == Element::Water {
                    self.replace_cell(idx(x, y - 1), Cell::empty());
                }
                proof {
                    lemma_walls_trans(old(self).cells@, mid.cells@, self.cells@);
                }
                assert(drank(grown, *self, x as int, y as int));
            } else {
                assert(stayed(grown, *self));
            }
        }
    }

    /// Seed: sprouts into a plant near water; otherwise falls as a powder.
    pub(crate) fn update_seed(&mut self, x: i32, y: i32)
        requires
            old(self).wf(),
            in_grid(x as int, y as int),
            old(self).cells@[cell_index(x as int, y as int)].el != Element::Wall,
        ensures
            local_step(*old(self), *final(self)),
            seed_outcome(*old(self), *final(self), x as int, y as int),
    {
        let sprout = chance(18);
        self.seed_turn(x, y, sprout);
        assert(seed_rule(*old(self), *self, x as int, y as int, sprout));
    }

    /// One seed update for the given draw, as `seed_rule` says.
    pub(crate) fn seed_turn(&mut self, x: i32, y: i32, sprout: bool)
        requires
            old(self).wf(),
            in_grid(x as int, y as int),
            old(self).cells@[cell_index(x as int, y as int)].el != Element::Wall,
        ensures
            local_step(*old(self), *final(self)),
            seed_rule(*old(self), *final(self), x as int, y as int, sprout),
    {
        let wet = [Element::Water, Element::SaltWater];
        assert(wet@ =~= seq![Element::Water, Element::SaltWater]);
        if sprout && self.has_neighbor(x, y, &wet) {
            self.respawn(x, y, Element::Plant, 0);
            return;
        }
        let moved = self.update_powder(x, y);
        proof {
            Self::lemma_attempt_keeps_walls(*old(self), *self, x as int, y as int, moved);
        }
    }

    /// Ant: drowns or burns near water, lava, acid or fire; eats plant, wood,
    /// sand, seed or ash next door (sometimes multiplying); falls; wanders.
    pub(crate) fn update_ant(&mut self, x: i32, y: i32)
        requires
            old(self).wf(),
            in_grid(x as int, y as int),
            old(self).cells@[cell_index(x as int, y as int)].el != Element::Wall,
        ensures
            local_step(*old(self), *final(self)),
            ant_outcome(*old(self), *final(self), x as int, y as int),
    {
        let die = chance(3);
        let start = gen_range(0, 4) as usize;
        let breed = chance(50);
        let d = gen_range(-1, 2);
        let climb = chance(2);
        self.ant_turn(x, y, die, start, breed, d, climb);
        assert(ant_rule(*old(self), *self, x as int, y as int, die, start as int, breed, d as int, climb));
    }

    /// One ant update for the given draws, as `ant_rule` says.
    pub(crate) fn ant_turn(&mut self, x: i32, y: i32, die: bool, start: usize, breed: bool, d: i32, climb: bool)
        requires
            old(self).wf(),
            in_grid(x as int, y as int),
            old(self).cells@[cell_index(x as int, y as int)].el != Element::Wall,
            start < 4,
            -1 <= d <= 1,
        ensures
            local_step(*old(self), *final(self)),
            ant_rule(*old(self), *final(self), x as int, y as int, die, start as int, breed, d as int, climb),
    {
        let i = idx(x, y);
        let hazards = [Element::Water, Element::SaltWater, Element::Lava, Element::Acid, Element::Fire];
        assert(hazards@ =~= seq![
            Element::Water,
            Element::SaltWater,
            Element::Lava,
            Element::Acid,
            Element::Fire,
        ]);
        if die && self.has_neighbor(x, y, &hazards) {
            self.replace_cell(i, Cell::empty());
            return;
        }
        let mut k: usize = 0;
        while k < 4
            invariant
                self.wf(),
                in_grid(x as int, y as int),
                start < 4,
                i as int == cell_index(x as int, y as int),
                self.cells@ == old(self).cells@,
                self.temp@ == old(self).temp@,
                self.frame == old(self).frame,
                k <= 4,
                !(die && old(self).touches(
                    x as int,
                    y as int,
                    seq![Element::Water, Element::SaltWater, Element::Lava, Element::Acid, Element::Fire],
                )),
                forall|j: int|
                    0 <= j < k ==> !#[trigger] food_at(
                        *old(self),
                        x as int,
                        y as int,
                        look_dir(start as int, j),
                    ),
            decreases 4 - k,
        {
            let (dx, dy) = neighbour_dir((start + k) % 4);
            let nx = x + dx;
            let ny = y + dy;
            let food = self.el_at(nx, ny);
            if matches!(
                food,
                Element::Plant | Element::Wood | Element::Sand | Element::Seed | Element::Ash
            ) {
                proof {
                    assert(food_at(*old(self), x as int, y as int, look_dir(start as int, k as int)));
                    if k > 0 {
                        assert(!food_at(*old(self), x as int, y as int, look_dir(start as int, 0)));
                    }
                    if k > 1 {
                        assert(!food_at(*old(self), x as int, y as int, look_dir(start as int, 1)));
                    }
                    if k > 2 {
                        assert(!food_at(*old(self), x as int, y as int, look_dir(start as int, 2)));
                    }
                    assert(first_food(*old(self), x as int, y as int, start as int) == ((start + k) % 4) as int);
                }
                if breed {
                    self.respawn(nx, ny, Element::Ant, 0);
                } else {
                    self.replace_cell(idx(nx, ny), Cell::empty());
                }
                return;
            }
            assert(!food_at(*old(self), x as int, y as int, look_dir(start as int, k as int)));
            k = k + 1;
        }
        assert(first_food(*old(self), x as int, y as int, start as int) == -1) by {
            assert(!food_at(*old(self), x as int, y as int, look_dir(start as int, 0)));
            assert(!food_at(*old(self), x as int, y as int, look_dir(start as int, 1)));
            assert(!food_at(*old(self), x as int, y as int, look_dir(start as int, 2)));
            assert(!food_at(*old(self), x as int, y as int, look_dir(start as int, 3)));
        }
        if self.el_at(x, y + 1) == Element::Empty {
            let moved = self.try_move(x, y, x, y + 1, true);
            proof {
                Self::lemma_attempt_keeps_walls(*old(self), *self, x as int, y as int, moved);
            }
            return;
        }
        if d != 0 && self.el_at(x + d, y) == Element::Empty {
            let moved = self.try_move(x, y, x + d, y, true);
            proof {
                Self::lemma_attempt_keeps_walls(*old(self), *self, x as int, y as int, moved);
            }
        } else if climb && self.el_at(x, y - 1) == Element::Empty {
            let moved = self.try_move(x, y, x, y - 1, false);
            proof {
                Self::lemma_attempt_keeps_walls(*old(self), *self, x as int, y as int, moved);
            }
        }
    }

    /// Bomb: explodes when charged, above 200 degrees, or touching fire, ember
    /// or lava; otherwise falls as a powder.
    pub(crate) fn update_bomb(&mut self, x: i32, y: i32)
        requires
            old(self).wf(),
            in_grid(x as int, y as int),
            old(self).cells@[cell_index(x as int, y as int)].el != Element::Wall,
        ensures
            local_step(*old(self), *final(self)),
            bomb_outcome(*old(self), *final(self), x as int, y as int),
    {
        let i = idx(x, y);
        if self.cells[i].charge > 0 || self.temp[i] > 200_000 || self.has_neighbor(
            x,
            y,
            &[Element::Fire, Element::Ember, Element::Lava],
        ) {
            self.explode(x, y, 16);
            return;
        }
        let moved = self.update_powder(x, y);
        proof {
            Self::lemma_attempt_keeps_walls(*old(self), *self, x as int, y as int, moved);
        }
    }

    /// Faucet: drips water into empty cells below and beside it.
    pub(crate) fn update_source(&mut self, x: i32, y: i32)
        requires
            old(self).wf(),
            in_grid(x as int, y as int),
        ensures
            local_step(*old(self), *final(self)),
            source_outcome(*old(self), *final(self), x as int, y as int),
    {
        let below = chance(2);
        let left = chance(2);
        let right = chance(2);
        self.source_turn(x, y, below, left, right);
        assert(source_rule(*old(self), *self, x as int, y as int, below, left, right));
    }

    /// One faucet update for the given draws, as `source_rule` says.
    pub(crate) fn source_turn(&mut self, x: i32, y: i32, below: bool, left: bool, right: bool)
        requires
            old(self).wf(),
            in_grid(x as int, y as int),
        ensures
            local_step(*old(self), *final(self)),
            source_rule(*old(self), *final(self), x as int, y as int, below, left, right),
    {
        if below && self.el_at(x, y + 1) == Element::Empty {
            self.respawn(x, y + 1, Element::Water, 0);
        }
        let ghost a = *self;
        assert(dripped(*old(self), a, x as int, y + 1, below));
        if left && self.el_at(x - 1, y) == Element::Empty {
            self.respawn(x - 1, y, Element::Water, 0);
        }
        let ghost b = *self;
        assert(dripped(a, b, x - 1, y as int, left));
        if right && self.el_at(x + 1, y) == Element::Empty {
            self.respawn(x + 1, y, Element::Water, 0);
        }
        assert(dripped(b, *self, x + 1, y as int, right));
        proof {
            lemma_walls_trans(old(self).cells@, a.cells@, b.cells@);
            lemma_walls_trans(old(self).cells@, b.cells@, self.cells@);
        }
    }
}

/// `new` is `old` after a blast of radius `r` at (cx, cy): every non-wall cell
/// in the disc holds fire, smoke or nothing at 800 degrees; the rest is as it was.
pub open spec fn blasted(old: World, new: World, cx: int, cy: int, r: int) -> bool {
    &&& new.cells@.len() == old.cells@.len()
    &&& forall|x: int, y: int|
        #![trigger cell_index(x, y)]
        in_grid(x, y) ==> if in_disc(x - cx, y - cy, r) && old.cells@[cell_index(x, y)].el
            != Element::Wall {
            blast_effect(new.cells@[cell_index(x, y)], new.temp@[cell_index(x, y)])
        } else {
            new.cells@[cell_index(x, y)] == old.cells@[cell_index(x, y)]
                && new.temp@[cell_index(x, y)] == old.temp@[cell_index(x, y)]
        }
}

/// What a fire cell at (x, y) does for given draws: next to water, acid or
/// brine it becomes steam of life `steam_life`; burnt out, it becomes smoke of
/// life `smoke_life` (with `smoke`) or nothing; otherwise it ages one frame
/// and moves as a gas.
pub open spec fn fire_rule(
    o: World,
    n: World,
    x: int,
    y: int,
    steam_life: u8,
    smoke: bool,
    smoke_life: u8,
) -> bool {
    let i = cell_index(x, y);
    if o.touches(x, y, seq![Element::Water, Element::SaltWater, Element::Acid]) {
        placed(o, n, x, y, Element::Steam, steam_life as int, steam_life + 1)
    } else if o.cells@[i].life <= 1 {
        if smoke {
            placed(o, n, x, y, Element::Smoke, smoke_life as int, smoke_life + 1)
        } else {
            emptied(o, n, i)
        }
    } else {
        exists|m: World| #[trigger] aged(o, m, i) && gas_step(m, n, x, y)
    }
}

/// What a fire cell at (x, y) does, for some draws in their ranges.
pub open spec fn fire_outcome(o: World, n: World, x: int, y: int) -> bool {
    exists|steam_life: u8, smoke: bool, smoke_life: u8|
        #![trigger fire_rule(o, n, x, y, steam_life, smoke, smoke_life)]
        60 <= steam_life < 120 && 80 <= smoke_life < 160 && fire_rule(
            o,
            n,
            x,
            y,
            steam_life,
            smoke,
            smoke_life,
        )
}

/// The flame an ember at (x, y) may spit: with `flare`, a fire of life
/// `flare_life` in the empty cell above; otherwise nothing.
pub open spec fn sparked(o: World, m: World, x: int, y: int, flare: bool, flare_life: u8) -> bool {
    if flare && o.el_of(x, y - 1) == Element::Empty {
        placed(o, m, x, y - 1, Element::Fire, flare_life as int, flare_life + 1)
    } else {
        stayed(o, m)
    }
}

/// What an ember at (x, y) does for given draws: next to water or brine it
/// becomes smoke of life `smoke_life`; otherwise it may spit a flame, then
/// burns down (into ash with `ash`, else smoke of life `smoke_life`) or ages.
pub open spec fn ember_rule(
    o: World,
    n: World,
    x: int,
    y: int,
    flare: bool,
    flare_life: u8,
    ash: bool,
    smoke_life: u8,
) -> bool {
    let i = cell_index(x, y);
    if o.touches(x, y, seq![Element::Water, Element::SaltWater]) {
        placed(o, n, x, y, Element::Smoke, smoke_life as int, smoke_life + 1)
    } else {
        exists|m: World|
            #[trigger] sparked(o, m, x, y, flare, flare_life) && if o.cells@[i].life <= 1 {
                if ash {
                    placed(m, n, x, y, Element::Ash, 0, 1)
                } else {
                    placed(m, n, x, y, Element::Smoke, smoke_life as int, smoke_life + 1)
                }
            } else {
                aged(m, n, i)
            }
    }
}

/// What an ember at (x, y) does, for some draws in their ranges.
pub open spec fn ember_outcome(o: World, n: World, x: int, y: int) -> bool {
    exists|flare: bool, flare_life: u8, ash: bool, smoke_life: u8|
        #![trigger ember_rule(o, n, x, y, flare, flare_life, ash, smoke_life)]
        40 <= flare_life < 90 && 60 <= smoke_life < 120 && ember_rule(
            o,
            n,
            x,
            y,
            flare,
            flare_life,
            ash,
            smoke_life,
        )
}

/// What smoke or toxic gas at (x, y) turns into: nothing once spent, else one
/// frame older, moving as a gas.
pub open spec fn fading_outcome(o: World, n: World, x: int, y: int) -> bool {
    let i = cell_index(x, y);
    if o.cells@[i].life == 0 {
        emptied(o, n, i)
    } else {
        exists|m: World| #[trigger] aged(o, m, i) && gas_step(m, n, x, y)
    }
}

/// What steam at (x, y) does for given draws: once spent, or below 90
/// degrees with `early`, it condenses (into water with `to_water`, else
/// vanishes); otherwise it ages one frame and moves as a gas.
pub open spec fn steam_rule(o: World, n: World, x: int, y: int, early: bool, to_water: bool) -> bool {
    let i = cell_index(x, y);
    if o.cells@[i].life == 0 || (o.temp@[i] < 90_000 && early) {
        if to_water {
            placed(o, n, x, y, Element::Water, 0, 1)
        } else {
            emptied(o, n, i)
        }
    } else {
        exists|m: World| #[trigger] aged(o, m, i) && gas_step(m, n, x, y)
    }
}

/// What steam at (x, y) does, for some draws.
pub open spec fn steam_outcome(o: World, n: World, x: int, y: int) -> bool {
    exists|early: bool, to_water: bool| #[trigger] steam_rule(o, n, x, y, early, to_water)
}

/// What salt at (x, y) does for a given draw: with `dissolve`, next to water,
/// it becomes brine; otherwise it moves as a powder.
pub open spec fn salt_rule(o: World, n: World, x: int, y: int, dissolve: bool) -> bool {
    if dissolve && o.touches(x, y, seq![Element::Water]) {
        placed(o, n, x, y, Element::SaltWater, 0, 1)
    } else {
        powder_step(o, n, x, y)
    }
}

/// What salt at (x, y) does, for some draw.
pub open spec fn salt_outcome(o: World, n: World, x: int, y: int) -> bool {
    exists|dissolve: bool| #[trigger] salt_rule(o, n, x, y, dissolve)
}

/// What acid does to the dissolvable cell at (nx, ny): with `vent` it turns
/// into toxic gas of life `toxic_life`, otherwise it is emptied.
pub open spec fn ate_away(o: World, m: World, nx: int, ny: int, vent: bool, toxic_life: u8) -> bool {
    if vent {
        placed(o, m, nx, ny, Element::Toxic, toxic_life as int, toxic_life + 1)
    } else {
        emptied(o, m, cell_index(nx, ny))
    }
}

/// What acid at (x, y) does for given draws: if the neighbour in direction
/// `k` is dissolvable and `eat`, it eats it away and wears down (vanishing
/// when spent); otherwise it moves as a liquid.
pub open spec fn acid_rule(
    o: World,
    n: World,
    x: int,
    y: int,
    k: int,
    eat: bool,
    vent: bool,
    toxic_life: u8,
) -> bool {
    let (nx, ny) = (x + dir4(k).0, y + dir4(k).1);
    let i = cell_index(x, y);
    if in_grid(nx, ny) && spec_dissolvable(o.el_of(nx, ny)) && eat {
        exists|m: World|
            #[trigger] ate_away(o, m, nx, ny, vent, toxic_life) && if o.cells@[i].life <= 1 {
                emptied(m, n, i)
            } else {
                aged(m, n, i)
            }
    } else {
        liquid_step(o, n, x, y)
    }
}

/// What acid at (x, y) does, for some draws in their ranges.
pub open spec fn acid_outcome(o: World, n: World, x: int, y: int) -> bool {
    exists|k: int, eat: bool, vent: bool, toxic_life: u8|
        #![trigger acid_rule(o, n, x, y, k, eat, vent, toxic_life)]
        0 <= k < 4 && 60 <= toxic_life < 120 && acid_rule(o, n, x, y, k, eat, vent, toxic_life)
}

/// What a plant at (x, y) does for given draws: with `grow`, next to water
/// or brine, it grows as `plant_grown` says for `k` and `drink`; otherwise
/// nothing changes.
pub open spec fn plant_rule(o: World, n: World, x: int, y: int, grow: bool, k: int, drink: bool) -> bool {
    if grow && o.touches(x, y, seq![Element::Water, Element::SaltWater]) {
        plant_grown(o, n, x, y, k, drink)
    } else {
        stayed(o, n)
    }
}

/// What a plant at (x, y) does, for some draws in their ranges.
pub open spec fn plant_outcome(o: World, n: World, x: int, y: int) -> bool {
    exists|grow: bool, k: int, drink: bool|
        #![trigger plant_rule(o, n, x, y, grow, k, drink)]
        0 <= k < 4 && plant_rule(o, n, x, y, grow, k, drink)
}

/// What a seed at (x, y) does for a given draw: with `sprout`, next to water
/// or brine, it becomes a plant; otherwise it moves as a powder.
pub open spec fn seed_rule(o: World, n: World, x: int, y: int, sprout: bool) -> bool {
    if sprout && o.touches(x, y, seq![Element::Water, Element::SaltWater]) {
        placed(o, n, x, y, Element::Plant, 0, 1)
    } else {
        powder_step(o, n, x, y)
    }
}

/// What a seed at (x, y) does, for some draw.
pub open spec fn seed_outcome(o: World, n: World, x: int, y: int) -> bool {
    exists|sprout: bool| #[trigger] seed_rule(o, n, x, y, sprout)
}

/// Is there ant food next to (x, y) in direction `k`?
pub open spec fn food_at(o: World, x: int, y: int, k: int) -> bool {
    ant_food(o.el_of(x + dir4(k).0, y + dir4(k).1))
}

/// The `j`-th direction an ant looks in, starting from direction `start`.
pub open spec fn look_dir(start: int, j: int) -> int {
    (start + j) % 4
}

/// The first direction, looking round from `start`, with food; -1 if none.
pub open spec fn first_food(o: World, x: int, y: int, start: int) -> int {
    if food_at(o, x, y, look_dir(start, 0)) {
        look_dir(start, 0)
    } else if food_at(o, x, y, look_dir(start, 1)) {
        look_dir(start, 1)
    } else if food_at(o, x, y, look_dir(start, 2)) {
        look_dir(start, 2)
    } else if food_at(o, x, y, look_dir(start, 3)) {
        look_dir(start, 3)
    } else {
        -1
    }
}

/// What an ant at (x, y) does for given draws: with `die`, next to water,
/// brine, lava, acid or fire, it dies; else it eats the first food looking
/// round from `start` (breeding a new ant there with `breed`); else it falls
/// into an empty cell below; else it steps sideways by `d` into an empty
/// cell; else with `climb` it climbs into an empty cell above; else it stays.
pub open spec fn ant_rule(
    o: World,
    n: World,
    x: int,
    y: int,
    die: bool,
    start: int,
    breed: bool,
    d: int,
    climb: bool,
) -> bool {
    let i = cell_index(x, y);
    let f = first_food(o, x, y, start);
    let (fx, fy) = (x + dir4(f).0, y + dir4(f).1);
    if die && o.touches(
        x,
        y,
        seq![Element::Water, Element::SaltWater, Element::Lava, Element::Acid, Element::Fire],
    ) {
        emptied(o, n, i)
    } else if f >= 0 {
        if breed {
            placed(o, n, fx, fy, Element::Ant, 0, 1)
        } else {
            emptied(o, n, cell_index(fx, fy))
        }
    } else if o.el_of(x, y + 1) == Element::Empty {
        went(o, n, x, y, x, y + 1, true)
    } else if d != 0 && o.el_of(x + d, y) == Element::Empty {
        went(o, n, x, y, x + d, y, true)
    } else if climb && o.el_of(x, y - 1) == Element::Empty {
        went(o, n, x, y, x, y - 1, false)
    } else {
        stayed(o, n)
    }
}

/// What an ant at (x, y) does, for some draws in their ranges.
pub open spec fn ant_outcome(o: World, n: World, x: int, y: int) -> bool {
    exists|die: bool, start: int, breed: bool, d: int, climb: bool|
        #![trigger ant_rule(o, n, x, y, die, start, breed, d, climb)]
        0 <= start < 4 && -1 <= d <= 1 && ant_rule(o, n, x, y, die, start, breed, d, climb)
}

/// What a bomb at (x, y) does: blows up (radius 16) when charged, above 200
/// degrees or touching fire, embers or lava; otherwise moves as a powder.
pub open spec fn bomb_outcome(o: World, n: World, x: int, y: int) -> bool {
    let i = cell_index(x, y);
    if o.cells@[i].charge > 0 || o.temp@[i] > 200_000 || o.touches(
        x,
        y,
        seq![Element::Fire, Element::Ember, Element::Lava],
    ) {
        blasted(o, n, x, y, 16)
    } else {
        powder_step(o, n, x, y)
    }
}

/// What a faucet at (x, y) does for given draws: drips water into the empty
/// cell below (with `below`), then left (with `left`), then right (with `right`).
pub open spec fn source_rule(o: World, n: World, x: int, y: int, below: bool, left: bool, right: bool) -> bool {
    exists|a: World, b: World|
        #![trigger dripped(o, a, x, y + 1, below), dripped(a, b, x - 1, y, left)]
        dripped(o, a, x, y + 1, below) && dripped(a, b, x - 1, y, left) && dripped(
            b,
            n,
            x + 1,
            y,
            right,
        )
}

/// What a faucet at (x, y) does, for some draws.
pub open spec fn source_outcome(o: World, n: World, x: int, y: int) -> bool {
    exists|below: bool, left: bool, right: bool|
        #[trigger] source_rule(o, n, x, y, below, left, right)
}

/// Where a powder at (x, y) goes: straight down if it can, else diagonally
/// down to an open side, else nowhere.
pub open spec fn powder_step(o: World, n: World, x: int, y: int) -> bool {
    if could_go(o, x, y, x, y + 1, true) {
        went(o, n, x, y, x, y + 1, true)
    } else if could_go(o, x, y, x + 1, y + 1, true) || could_go(o, x, y, x - 1, y + 1, true) {
        went(o, n, x, y, x + 1, y + 1, true) || went(o, n, x, y, x - 1, y + 1, true)
    } else {
        stayed(o, n)
    }
}

/// Where a liquid at (x, y) goes: as a powder would, else sideways to an
/// open side, else nowhere.
pub open spec fn liquid_step(o: World, n: World, x: int, y: int) -> bool {
    if could_go(o, x, y, x, y + 1, true) {
        went(o, n, x, y, x, y + 1, true)
    } else if could_go(o, x, y, x + 1, y + 1, true) || could_go(o, x, y, x - 1, y + 1, true) {
        went(o, n, x, y, x + 1, y + 1, true) || went(o, n, x, y, x - 1, y + 1, true)
    } else if could_go(o, x, y, x + 1, y, true) || could_go(o, x, y, x - 1, y, true) {
        went(o, n, x, y, x + 1, y, true) || went(o, n, x, y, x - 1, y, true)
    } else {
        stayed(o, n)
    }
}

/// Where a gas at (x, y) goes: straight up if it can, else diagonally up to
/// an open side, else (half of the time) sideways or nowhere.
pub open spec fn gas_step(o: World, n: World, x: int, y: int) -> bool {
    if could_go(o, x, y, x, y - 1, false) {
        went(o, n, x, y, x, y - 1, false)
    } else if could_go(o, x, y, x + 1, y - 1, false) || could_go(o, x, y, x - 1, y - 1, false) {
        went(o, n, x, y, x + 1, y - 1, false) || went(o, n, x, y, x - 1, y - 1, false)
    } else {
        ||| stayed(o, n)
        ||| went(o, n, x, y, x + 1, y, true)
        ||| went(o, n, x, y, x - 1, y, true)
    }
}

/// What one update does to the cell at (x, y): nothing if it already moved
/// this frame or is inert; otherwise what its element's rule allows.
pub open spec fn cell_outcome(o: World, n: World, x: int, y: int) -> bool {
    let c = o.cells@[cell_index(x, y)];
    if c.moved {
        stayed(o, n)
    } else {
        match c.el {
            Element::Empty | Element::Wall | Element::Stone | Element::Glass | Element::Metal => stayed(o, n),
            Element::Fire => fire_outcome(o, n, x, y),
            Element::Ember => ember_outcome(o, n, x, y),
            Element::Smoke | Element::Toxic => fading_outcome(o, n, x, y),
            Element::Steam => steam_outcome(o, n, x, y),
            Element::Acid => acid_outcome(o, n, x, y),
            Element::Plant => plant_outcome(o, n, x, y),
            Element::Seed => seed_outcome(o, n, x, y),
            Element::Ant => ant_outcome(o, n, x, y),
            Element::Bomb => bomb_outcome(o, n, x, y),
            Element::Salt => salt_outcome(o, n, x, y),
            Element::WaterSource => source_outcome(o, n, x, y),
            other => match spec_props(other).cat {
                Cat::Powder => powder_step(o, n, x, y),
                Cat::Liquid => liquid_step(o, n, x, y),
                Cat::Gas => gas_step(o, n, x, y),
                _ => stayed(o, n),
            },
        }
    }
}

/// Position `k` of the movement scan: rows from the bottom up, each row left
/// to right on even frames and right to left on odd ones.
pub open spec fn scan_cell(frame: u64, k: int) -> (int, int) {
    let row = k / (W as int);
    let col = k % (W as int);
    (if frame % 2 == 0 { col } else { W - 1 - col }, H - 1 - row)
}

/// Step `k` of a scan trace updates the cell at scan position `k`.
pub open spec fn scan_link(t: Seq<World>, frame: u64, k: int) -> bool {
    cell_outcome(t[k], t[k + 1], scan_cell(frame, k).0, scan_cell(frame, k).1)
}

/// `t` leads from `a` to `b` by updating every cell once, in scan order.
pub open spec fn scan_trace(a: World, b: World, t: Seq<World>) -> bool {
    &&& t.len() == CELLS + 1
    &&& t[0] == a
    &&& t[CELLS as int] == b
    &&& forall|k: int| 0 <= k < CELLS ==> #[trigger] scan_link(t, a.frame, k)
}

/// `b` is `a` after the movement pass: every cell updated once, in scan order.
pub open spec fn scan_pass(a: World, b: World) -> bool {
    exists|t: Seq<World>| #[trigger] scan_trace(a, b, t)
}

impl World {
    /// Blasts a circular crater of radius `r` around (cx, cy): every non-wall
    /// cell in the disc becomes fire, smoke or empty space at 800 degrees.
    pub(crate) fn explode(&mut self, cx: i32, cy: i32, r: i32)
        requires
            old(self).wf(),
            brush_fits(cx, cy, r),
        ensures
            local_step(*old(self), *final(self)),
            blasted(*old(self), *final(self), cx as int, cy as int, r as int),
    {
        if r < 0 {
            return;
        }
        let mut dy: i32 = -r;
        while dy <= r
            invariant
                brush_fits(cx, cy, r),
                r >= 0,
                -r <= dy <= r + 1,
                local_step(*old(self), *self),
                forall|x: int, y: int|
                    #![trigger cell_index(x, y)]
                    in_grid(x, y) ==> if scanned(x - cx, y - cy, r as int, -r as int, dy as int)
                        && in_disc(x - cx, y - cy, r as int) && old(self).cells@[cell_index(
                        x,
                        y,
                    )].el != Element::Wall {
                        blast_effect(self.cells@[cell_index(x, y)], self.temp@[cell_index(x, y)])
                    } else {
                        self.cells@[cell_index(x, y)] == old(self).cells@[cell_index(x, y)]
                            && self.temp@[cell_index(x, y)] == old(self).temp@[cell_index(x, y)]
                    },
            decreases r - dy + 1,
        {
            let mut dx: i32 = -r;
            while dx <= r
                invariant
                    brush_fits(cx, cy, r),
                    r >= 0,
                    -r <= dy <= r,
                    -r <= dx <= r + 1,
                    local_step(*old(self), *self),
                    forall|x: int, y: int|
                        #![trigger cell_index(x, y)]
                        in_grid(x, y) ==> if scanned(x - cx, y - cy, r as int, dx as int, dy as int)
                            && in_disc(x - cx, y - cy, r as int) && old(self).cells@[cell_index(
                            x,
                            y,
                        )].el != Element::Wall {
                            blast_effect(
                                self.cells@[cell_index(x, y)],
                                self.temp@[cell_index(x, y)],
                            )
                        } else {
                            self.cells@[cell_index(x, y)] == old(self).cells@[cell_index(x, y)]
                                && self.temp@[cell_index(x, y)] == old(self).temp@[cell_index(
                                x,
                                y,
                            )]
                        },
                decreases r - dx + 1,
            {
                proof {
                    assert(0 <= dx * dx <= r * r) by (nonlinear_arith)
                        requires
                            -r <= dx <= r,
                    ;
                    assert(0 <= dy * dy <= r * r) by (nonlinear_arith)
                        requires
                            -r <= dy <= r,
                    ;
                    assert(r * r <= 32767 * 32767) by (nonlinear_arith)
                        requires
                            0 <= r <= 32767,
                    ;
                }
                if dx * dx + dy * dy <= r * r {
                    let x = cx + dx;
                    let y = cy + dy;
                    if in_bounds(x, y) && self.el_at(x, y) != Element::Wall {
                        let i = idx(x, y);
                        let ghost before = *self;
                        let roll = gen_range(0, 100);
                        if roll < 35 {
                            let life = gen_range(40, 100) as u8;
                            self.respawn(x, y, Element::Fire, life);
                        } else if roll < 50 {
                            let life = gen_range(80, 160) as u8;
                            self.respawn(x, y, Element::Smoke, life);
                        } else {
                            self.replace_cell(i, Cell::empty());
                        }
                        self.temp.set(i, 800_000);
                        proof {
                            lemma_walls_trans(old(self).cells@, before.cells@, self.cells@);
                        }
                        assert(self.cells@ == before.cells@.update(i as int, self.cells@[i as int]));
                        assert(self.temp@ == before.temp@.update(i as int, self.temp@[i as int]));
                    }
                }
                dx = dx + 1;
            }
            dy = dy + 1;
        }
    }

    /// Advances the cell at (x, y) by one frame according to its element,
    /// unless it already moved this frame.
    pub(crate) fn update_cell(&mut self, x: i32, y: i32)
        requires
            old(self).wf(),
            in_grid(x as int, y as int),
        ensures
            local_step(*old(self), *final(self)),
            cell_outcome(*old(self), *final(self), x as int, y as int),
    {
        let i = idx(x, y);
        let c = self.cells[i];
        if c.moved {
            return;
        }
        match c.el {
            Element::Empty | Element::Wall | Element::Stone | Element::Glass | Element::Metal => {},
            Element::Fire => self.update_fire(x, y),
            Element::Ember => self.update_ember(x, y),
            Element::Smoke | Element::Toxic => self.update_fading_gas(x, y),
            Element::Steam => self.update_steam(x, y),
            Element::Acid => self.update_acid(x, y),
            Element::Plant => self.update_plant(x, y),
            Element::Seed => self.update_seed(x, y),
            Element::Ant => self.update_ant(x, y),
            Element::Bomb => self.update_bomb(x, y),
            Element::Salt => self.update_salt(x, y),
            Element::WaterSource => self.update_source(x, y),
            other => {
                let moved = match props(other).cat {
                    Cat::Powder => self.update_powder(x, y),
                    Cat::Liquid => self.update_liquid(x, y),
                    Cat::Gas => self.update_gas(x, y),
                    _ => false,
                };
                proof {
                    Self::lemma_attempt_keeps_walls(*old(self), *self, x as int, y as int, moved);
                }
            },
        }
    }
}

} // verus!
