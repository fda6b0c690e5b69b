//! Laws of the simulation that span whole steps and passes.

use vstd::prelude::*;
use crate::behaviour::{
    acid_rule, ant_rule, fire_rule, plant_rule, source_rule, ate_away, blasted, cell_outcome, dir4, drank, dripped, ember_rule,
    emptied, first_food, gas_step, grew, growth_dir, liquid_step, placed, powder_step, salt_rule,
    scan_cell, scan_link, scan_trace, seed_rule, sparked, stayed, steam_rule, went, aged, food_at,
    look_dir,
};
use crate::element::{Cat, Element, spec_dissolvable, spec_props};
use crate::element::spec_conductive;
use crate::energy::{
    charge_formula, charge_link, charge_step, charge_trace, charges, charged_cell, diffused, edge_temp,
    fired, heat_offset, next_charge, passed_charge, passed_now, phase_outcome, phase_target, set_off, with_charge, diffused_from, emitted_field, heat_step, phase_link, phase_trace, quiet,
    row_major,
};
use crate::world::{
    AMBIENT, CELLS, Cell, H, W, World, cell_index, flags_cleared, in_grid, lemma_walls_trans,
    spawned_at, stepped, walls_kept, can_displace, zap_effect,
};

verus! {

/// An empty cell with no life or charge (whatever its colour seed and flag).
pub open spec fn calm_cell(c: Cell) -> bool {
    c.el == Element::Empty && c.life == 0 && c.charge == 0
}

/// An empty world at rest: every cell empty, with no life or charge, at
/// ambient temperature.
pub open spec fn calm(w: World) -> bool {
    &&& w.cells@.len() == CELLS
    &&& w.temp@.len() == CELLS
    &&& forall|i: int| 0 <= i < CELLS ==> #[trigger] calm_cell(w.cells@[i])
    &&& forall|i: int| 0 <= i < CELLS ==> #[trigger] w.temp@[i] == AMBIENT
}

/// Grid positions index the grid.
proof fn lemma_index_in_range(x: int, y: int)
    requires
        in_grid(x, y),
    ensures
        0 <= cell_index(x, y) < CELLS,
{
}

/// Every index of the grid is a grid position, read row by row.
proof fn lemma_index_of(i: int)
    requires
        0 <= i < CELLS,
    ensures
        in_grid(i % (W as int), i / (W as int)),
        cell_index(i % (W as int), i / (W as int)) == i,
        row_major(i) == (i % (W as int), i / (W as int)),
{
    vstd::arithmetic::div_mod::lemma_fundamental_div_mod(i, W as int);
    vstd::arithmetic::div_mod::lemma_mod_bound(i, W as int);
}

/// Every position of the movement scan is a grid position.
proof fn lemma_scan_cell_in_grid(frame: u64, k: int)
    requires
        0 <= k < CELLS,
    ensures
        in_grid(scan_cell(frame, k).0, scan_cell(frame, k).1),
{
    lemma_index_of(k);
}

/// Worlds with the same cells and temperatures are equally calm.
proof fn lemma_calm_same(a: World, b: World)
    requires
        calm(a),
        b.cells@ == a.cells@,
        b.temp@ == a.temp@,
    ensures
        calm(b),
{
}

/// Clearing the moved flags keeps a calm world calm.
proof fn lemma_calm_cleared(a: World, b: World)
    requires
        calm(a),
        flags_cleared(a, b),
    ensures
        calm(b),
{
    assert forall|i: int| 0 <= i < CELLS implies #[trigger] calm_cell(b.cells@[i]) by {
        assert(calm_cell(a.cells@[i]));
    }
}

/// No conductor of a calm world carries charge, so its grid is quiet.
proof fn lemma_calm_quiet(a: World)
    requires
        calm(a),
    ensures
        quiet(a.cells@),
{
    reveal(quiet);
    assert forall|x: int, y: int|
        #![trigger cell_index(x, y)]
        in_grid(x, y) implies !spec_conductive(a.cells@[cell_index(x, y)].el) by {
        lemma_index_in_range(x, y);
        assert(calm_cell(a.cells@[cell_index(x, y)]));
    }
}

/// The quiet charge pass changes a calm world's cell at (x, y) to itself.
proof fn lemma_calm_charge_cell(a: World, b: World, x: int, y: int)
    requires
        calm(a),
        in_grid(x, y),
        b.cells@[cell_index(x, y)] == (Cell {
            charge: next_charge(a.cells@, x, y) as u8,
            ..a.cells@[cell_index(x, y)]
        }),
    ensures
        calm_cell(b.cells@[cell_index(x, y)]),
{
    lemma_index_in_range(x, y);
    assert(calm_cell(a.cells@[cell_index(x, y)]));
}

/// The charge pass keeps a calm world calm.
proof fn lemma_calm_charge(a: World, b: World)
    requires
        calm(a),
        charge_step(a, b),
    ensures
        calm(b),
{
    lemma_calm_quiet(a);
    assert forall|i: int| 0 <= i < CELLS implies #[trigger] calm_cell(b.cells@[i]) by {
        lemma_index_of(i);
        let (x, y) = (i % (W as int), i / (W as int));
        lemma_calm_charge_cell(a, b, x, y);
    }
}

/// Each update of the movement scan keeps a calm world calm.
proof fn lemma_calm_scan_prefix(a: World, b: World, t: Seq<World>, k: int)
    requires
        calm(a),
        scan_trace(a, b, t),
        0 <= k <= CELLS,
    ensures
        calm(t[k]),
    decreases k,
{
    if k > 0 {
        lemma_calm_scan_prefix(a, b, t, k - 1);
        let (x, y) = scan_cell(a.frame, k - 1);
        assert(scan_link(t, a.frame, k - 1));
        lemma_scan_cell_in_grid(a.frame, k - 1);
        lemma_index_in_range(x, y);
        assert(calm_cell(t[k - 1].cells@[cell_index(x, y)]));
        assert(stayed(t[k - 1], t[k]));
        lemma_calm_same(t[k - 1], t[k]);
    }
}

/// A neighbour of an ambient field, as diffusion sees it, is ambient.
proof fn lemma_edge_ambient(f: Seq<i32>, x: int, y: int, nx: int, ny: int)
    requires
        in_grid(x, y),
        forall|j: int| 0 <= j < CELLS ==> #[trigger] f[j] == AMBIENT,
    ensures
        edge_temp(f, x, y, nx, ny) == AMBIENT,
{
    lemma_index_in_range(x, y);
    if in_grid(nx, ny) {
        lemma_index_in_range(nx, ny);
    }
}

/// Diffusing an ambient field leaves it ambient.
proof fn lemma_diffused_ambient(f: Seq<i32>, x: int, y: int)
    requires
        in_grid(x, y),
        forall|j: int| 0 <= j < CELLS ==> #[trigger] f[j] == AMBIENT,
    ensures
        diffused(f, x, y) == AMBIENT,
{
    lemma_index_in_range(x, y);
    lemma_edge_ambient(f, x, y, x, y + 1);
    lemma_edge_ambient(f, x, y, x, y - 1);
    lemma_edge_ambient(f, x, y, x + 1, y);
    lemma_edge_ambient(f, x, y, x - 1, y);
}

/// Diffusion keeps a calm world calm.
proof fn lemma_calm_diffused(a: World, d: World)
    requires
        calm(a),
        diffused_from(a, d),
    ensures
        calm(d),
{
    let f = emitted_field(a);
    assert forall|j: int| 0 <= j < CELLS implies #[trigger] f[j] == AMBIENT by {
        assert(calm_cell(a.cells@[j]));
        assert(a.temp@[j] == AMBIENT);
    }
    assert forall|i: int| 0 <= i < CELLS implies #[trigger] d.temp@[i] == AMBIENT by {
        lemma_index_of(i);
        let (x, y) = (i % (W as int), i / (W as int));
        lemma_diffused_ambient(f, x, y);
        assert(d.temp@[cell_index(x, y)] == diffused(f, x, y));
    }
}

/// Each phase change keeps a calm world calm.
proof fn lemma_calm_phase_prefix(a: World, b: World, t: Seq<World>, k: int)
    requires
        calm(a),
        phase_trace(a, b, t),
        0 <= k <= CELLS,
    ensures
        calm(t[k]),
    decreases k,
{
    if k > 0 {
        lemma_calm_phase_prefix(a, b, t, k - 1);
        lemma_index_of(k - 1);
        let (x, y) = row_major(k - 1);
        assert(phase_link(t, k - 1));
        assert(calm_cell(t[k - 1].cells@[cell_index(x, y)]));
        assert(t[k - 1].temp@[cell_index(x, y)] == AMBIENT);
        lemma_calm_same(t[k - 1], t[k]);
    }
}

/// An empty world at ambient temperature is at rest: a step leaves every
/// cell empty and every temperature ambient.
pub proof fn lemma_calm_world_rests(a: World, b: World)
    requires
        calm(a),
        stepped(a, b),
    ensures
        calm(b),
{
    let (s1, s2, s3, s4) = choose|s1: World, s2: World, s3: World, s4: World|
        {
            &&& flags_cleared(a, s1)
            &&& charge_step(s1, s2)
            &&& crate::world::local_step(s2, s3)
            &&& crate::behaviour::scan_pass(s2, s3)
            &&& heat_step(s3, s4)
            &&& b.cells@ == s4.cells@
            &&& b.temp@ == s4.temp@
        };
    lemma_calm_cleared(a, s1);
    lemma_calm_charge(s1, s2);
    let t = choose|t: Seq<World>| scan_trace(s2, s3, t);
    lemma_calm_scan_prefix(s2, s3, t, CELLS as int);
    let (d, p) = choose|d: World, p: Seq<World>|
        diffused_from(s3, d) && crate::world::local_step(d, s4) && phase_trace(d, s4, p);
    lemma_calm_diffused(s3, d);
    lemma_calm_phase_prefix(d, s4, p, CELLS as int);
    lemma_calm_same(s4, b);
}

/// Is `el` left alone by the heat pass: no heat source, nothing that melts,
/// freezes, boils, ignites or explodes?
pub open spec fn heat_inert(el: Element) -> bool {
    el == Element::Empty || el == Element::Wall || el == Element::Stone || el == Element::Sand
        || el == Element::Glass
}

/// One diffusion step of values between `lo` and `hi`, relaxed toward an
/// ambient between them too, stays between them.
proof fn lemma_diffusion_between(c: int, s0: int, s1: int, s2: int, s3: int, lo: int, hi: int)
    requires
        lo <= c <= hi,
        lo <= s0 <= hi,
        lo <= s1 <= hi,
        lo <= s2 <= hi,
        lo <= s3 <= hi,
        lo <= AMBIENT <= hi,
    ensures
        ({
            let k = heat_offset();
            let d = (344 * (c + k) + 14 * (s0 + s1 + s2 + s3 + 4 * k)) / 400;
            let e = (996 * d + 4 * (AMBIENT + k)) / 1000;
            lo <= e - k <= hi
        }),
{
    let k = heat_offset();
    let n = 344 * (c + k) + 14 * (s0 + s1 + s2 + s3 + 4 * k);
    assert(400 * (lo + k) <= n <= 400 * (hi + k));
    let d = n / 400;
    vstd::arithmetic::div_mod::lemma_fundamental_div_mod(n, 400);
    assert(lo + k <= d <= hi + k);
    let m = 996 * d + 4 * (AMBIENT + k);
    assert(1000 * (lo + k) <= m <= 1000 * (hi + k));
    vstd::arithmetic::div_mod::lemma_fundamental_div_mod(m, 1000);
}

/// The temperature diffusion gives (x, y) stays between `lo` and `hi` when
/// every temperature of `f` does.
proof fn lemma_diffused_between(f: Seq<i32>, x: int, y: int, lo: int, hi: int)
    requires
        in_grid(x, y),
        f.len() == CELLS,
        lo <= AMBIENT <= hi,
        forall|j: int| 0 <= j < CELLS ==> lo <= #[trigger] f[j] <= hi,
    ensures
        lo <= diffused(f, x, y) <= hi,
{
    lemma_index_in_range(x, y);
    let c = f[cell_index(x, y)] as int;
    let s0 = edge_temp(f, x, y, x, y + 1);
    let s1 = edge_temp(f, x, y, x, y - 1);
    let s2 = edge_temp(f, x, y, x + 1, y);
    let s3 = edge_temp(f, x, y, x - 1, y);
    if in_grid(x, y + 1) {
        lemma_index_in_range(x, y + 1);
        assert(lo <= f[cell_index(x, y + 1)] <= hi);
    }
    if in_grid(x, y - 1) {
        lemma_index_in_range(x, y - 1);
        assert(lo <= f[cell_index(x, y - 1)] <= hi);
    }
    if in_grid(x + 1, y) {
        lemma_index_in_range(x + 1, y);
        assert(lo <= f[cell_index(x + 1, y)] <= hi);
    }
    if in_grid(x - 1, y) {
        lemma_index_in_range(x - 1, y);
        assert(lo <= f[cell_index(x - 1, y)] <= hi);
    }
    lemma_diffusion_between(c, s0, s1, s2, s3, lo, hi);
}

/// Phase changes leave a world of heat-inert cells unchanged.
proof fn lemma_inert_phase_prefix(a: World, b: World, t: Seq<World>, k: int)
    requires
        a.cells@.len() == CELLS,
        forall|i: int| 0 <= i < CELLS ==> heat_inert(#[trigger] a.cells@[i].el),
        phase_trace(a, b, t),
        0 <= k <= CELLS,
    ensures
        t[k].cells@ == a.cells@,
        t[k].temp@ == a.temp@,
    decreases k,
{
    if k > 0 {
        lemma_inert_phase_prefix(a, b, t, k - 1);
        lemma_index_of(k - 1);
        let (x, y) = row_major(k - 1);
        assert(phase_link(t, k - 1));
        assert(heat_inert(a.cells@[cell_index(x, y)].el));
    }
}

/// Heat spreads without creating new extremes: in a world of heat-inert
/// cells, the heat pass changes no cell, and every temperature stays between
/// the coolest and the hottest of the old field and ambient.
pub proof fn lemma_heat_no_new_extremes(a: World, b: World, lo: int, hi: int)
    requires
        a.wf(),
        heat_step(a, b),
        lo <= AMBIENT <= hi,
        forall|i: int| 0 <= i < CELLS ==> heat_inert(#[trigger] a.cells@[i].el),
        forall|i: int| 0 <= i < CELLS ==> lo <= #[trigger] a.temp@[i] <= hi,
    ensures
        b.cells@ == a.cells@,
        forall|i: int| 0 <= i < CELLS ==> lo <= #[trigger] b.temp@[i] <= hi,
{
    let (d, p) = choose|d: World, p: Seq<World>|
        diffused_from(a, d) && crate::world::local_step(d, b) && phase_trace(d, b, p);
    let f = emitted_field(a);
    assert forall|j: int| 0 <= j < CELLS implies lo <= #[trigger] f[j] <= hi by {
        assert(heat_inert(a.cells@[j].el));
        assert(lo <= a.temp@[j] <= hi);
    }
    assert forall|i: int| 0 <= i < CELLS implies lo <= #[trigger] d.temp@[i] <= hi by {
        lemma_index_of(i);
        let (x, y) = (i % (W as int), i / (W as int));
        lemma_diffused_between(f, x, y, lo, hi);
        assert(d.temp@[cell_index(x, y)] == diffused(f, x, y));
    }
    lemma_inert_phase_prefix(d, b, p, CELLS as int);
}

/// Every cell holds at most `cap` charge.
pub open spec fn charge_capped(w: World, cap: int) -> bool {
    forall|j: int| 0 <= j < w.cells@.len() ==> #[trigger] w.cells@[j].charge <= cap
}

/// The cell holds no charge, or is a conductor holding less than `cap`.
pub open spec fn settled_cell(c: Cell, cap: int) -> bool {
    c.charge == 0 || (spec_conductive(c.el) && c.charge < cap)
}

/// Every cell is settled below `cap`.
pub open spec fn charge_settled(w: World, cap: int) -> bool {
    forall|j: int| 0 <= j < w.cells@.len() ==> #[trigger] settled_cell(w.cells@[j], cap)
}

/// Every cell of `n` is that of `o` or holds no charge.
pub open spec fn kept_or_cleared(o: World, n: World) -> bool {
    &&& n.cells@.len() == o.cells@.len()
    &&& forall|j: int|
        0 <= j < o.cells@.len() ==> #[trigger] n.cells@[j] == o.cells@[j] || n.cells@[j].charge
            == 0
}

/// Keeping or clearing cells keeps them capped and settled.
proof fn lemma_kept_or_cleared(o: World, n: World, cap: int)
    requires
        kept_or_cleared(o, n),
        0 <= cap,
    ensures
        charge_capped(o, cap) ==> charge_capped(n, cap),
        charge_settled(o, cap) ==> charge_settled(n, cap),
{
    if charge_capped(o, cap) {
        assert forall|j: int| 0 <= j < n.cells@.len() implies #[trigger] n.cells@[j].charge <= cap by {
            assert(n.cells@[j] == o.cells@[j] || n.cells@[j].charge == 0);
        }
    }
    if charge_settled(o, cap) {
        assert forall|j: int| 0 <= j < n.cells@.len() implies #[trigger] settled_cell(n.cells@[j], cap) by {
            assert(n.cells@[j] == o.cells@[j] || n.cells@[j].charge == 0);
            assert(settled_cell(o.cells@[j], cap));
        }
    }
}

/// Keeping or clearing is transitive.
proof fn lemma_kept_or_cleared_trans(a: World, b: World, c: World)
    requires
        kept_or_cleared(a, b),
        kept_or_cleared(b, c),
    ensures
        kept_or_cleared(a, c),
{
    assert forall|j: int| 0 <= j < a.cells@.len() implies #[trigger] c.cells@[j] == a.cells@[j]
        || c.cells@[j].charge == 0 by {
        assert(b.cells@[j] == a.cells@[j] || b.cells@[j].charge == 0);
        assert(c.cells@[j] == b.cells@[j] || c.cells@[j].charge == 0);
    }
}

/// A blast keeps or clears every cell.
proof fn lemma_blast_clears(o: World, n: World, cx: int, cy: int, r: int)
    requires
        o.cells@.len() == CELLS,
        blasted(o, n, cx, cy, r),
    ensures
        kept_or_cleared(o, n),
{
    assert forall|j: int| 0 <= j < o.cells@.len() implies #[trigger] n.cells@[j] == o.cells@[j]
        || n.cells@[j].charge == 0 by {
        lemma_index_of(j);
        let (x, y) = (j % (W as int), j / (W as int));
        assert(cell_index(x, y) == j);
    }
}

/// Placing a fresh cell keeps or clears every cell.
proof fn lemma_spawn_clears(o: World, n: World, i: int, el: Element, life: u8)
    requires
        0 <= i < o.cells@.len(),
        spawned_at(o.cells@, o.temp@, n.cells@, n.temp@, i, el, life),
    ensures
        kept_or_cleared(o, n),
{
    assert forall|j: int| 0 <= j < o.cells@.len() implies #[trigger] n.cells@[j] == o.cells@[j]
        || n.cells@[j].charge == 0 by {
        if j == i {
            assert(n.cells@[j].charge == 0);
        }
    }
}

/// Placing or emptying a cell keeps or clears every cell.
proof fn lemma_placed_clears(o: World, n: World, x: int, y: int, el: Element, lo: int, hi: int)
    requires
        o.cells@.len() == CELLS,
        placed(o, n, x, y, el, lo, hi),
    ensures
        kept_or_cleared(o, n),
{
    lemma_index_in_range(x, y);
    lemma_spawn_clears(o, n, cell_index(x, y), el, n.cells@[cell_index(x, y)].life);
}

/// Emptying a cell keeps or clears every cell.
proof fn lemma_emptied_clears(o: World, n: World, i: int)
    requires
        0 <= i < o.cells@.len(),
        emptied(o, n, i),
    ensures
        kept_or_cleared(o, n),
{
    assert forall|j: int| 0 <= j < o.cells@.len() implies #[trigger] n.cells@[j] == o.cells@[j]
        || n.cells@[j].charge == 0 by {
        if j == i {
            assert(n.cells@[j] == Cell::spec_empty());
        }
    }
}

/// Setting off a neighbour keeps or clears every cell.
proof fn lemma_set_off_clears(o: World, n: World, nx: int, ny: int)
    requires
        o.cells@.len() == CELLS,
        set_off(o, n, nx, ny),
    ensures
        kept_or_cleared(o, n),
{
    let el = o.el_of(nx, ny);
    if el == Element::Bomb {
        lemma_blast_clears(o, n, nx, ny, 16);
    } else if el == Element::Gunpowder || el == Element::Oil {
        lemma_index_in_range(nx, ny);
        lemma_spawn_clears(o, n, cell_index(nx, ny), Element::Fire, n.cells@[cell_index(nx, ny)].life);
    }
}

/// A cell moving into a neighbour keeps every cell settled.
proof fn lemma_went_settled(o: World, n: World, x: int, y: int, nx: int, ny: int, down: bool, cap: int)
    requires
        o.cells@.len() == CELLS,
        in_grid(x, y),
        went(o, n, x, y, nx, ny, down),
        charge_settled(o, cap),
    ensures
        n.cells@.len() == CELLS,
        charge_settled(n, cap),
{
    lemma_index_in_range(x, y);
    lemma_index_in_range(nx, ny);
    let (i, j) = (cell_index(x, y), cell_index(nx, ny));
    assert(settled_cell(o.cells@[i], cap));
    assert(settled_cell(o.cells@[j], cap));
    assert forall|l: int| 0 <= l < n.cells@.len() implies #[trigger] settled_cell(n.cells@[l], cap) by {
        if l != i && l != j {
            assert(settled_cell(o.cells@[l], cap));
        }
    }
}

/// A cell growing one frame older keeps every cell settled.
proof fn lemma_aged_settled(o: World, n: World, i: int, cap: int)
    requires
        o.cells@.len() == CELLS,
        0 <= i < CELLS,
        aged(o, n, i),
        charge_settled(o, cap),
    ensures
        n.cells@.len() == CELLS,
        charge_settled(n, cap),
{
    assert(settled_cell(o.cells@[i], cap));
    assert forall|l: int| 0 <= l < n.cells@.len() implies #[trigger] settled_cell(n.cells@[l], cap) by {
        assert(settled_cell(o.cells@[l], cap));
    }
}

/// Keeping or clearing cells keeps them settled, and the grid's size.
proof fn lemma_cleared_settled(o: World, n: World, cap: int)
    requires
        o.cells@.len() == CELLS,
        kept_or_cleared(o, n),
        charge_settled(o, cap),
        0 <= cap,
    ensures
        n.cells@.len() == CELLS,
        charge_settled(n, cap),
{
    lemma_kept_or_cleared(o, n, cap);
}

/// Moving as a powder, liquid or gas keeps every cell settled.
proof fn lemma_moves_settled(o: World, n: World, x: int, y: int, cap: int)
    requires
        o.cells@.len() == CELLS,
        in_grid(x, y),
        charge_settled(o, cap),
        powder_step(o, n, x, y) || liquid_step(o, n, x, y) || gas_step(o, n, x, y),
    ensures
        n.cells@.len() == CELLS,
        charge_settled(n, cap),
{
    if stayed(o, n) {
    } else if went(o, n, x, y, x, y + 1, true) {
        lemma_went_settled(o, n, x, y, x, y + 1, true, cap);
    } else if went(o, n, x, y, x + 1, y + 1, true) {
        lemma_went_settled(o, n, x, y, x + 1, y + 1, true, cap);
    } else if went(o, n, x, y, x - 1, y + 1, true) {
        lemma_went_settled(o, n, x, y, x - 1, y + 1, true, cap);
    } else if went(o, n, x, y, x + 1, y, true) {
        lemma_went_settled(o, n, x, y, x + 1, y, true, cap);
    } else if went(o, n, x, y, x - 1, y, true) {
        lemma_went_settled(o, n, x, y, x - 1, y, true, cap);
    } else if went(o, n, x, y, x, y - 1, false) {
        lemma_went_settled(o, n, x, y, x, y - 1, false, cap);
    } else if went(o, n, x, y, x + 1, y - 1, false) {
        lemma_went_settled(o, n, x, y, x + 1, y - 1, false, cap);
    } else {
        lemma_went_settled(o, n, x, y, x - 1, y - 1, false, cap);
    }
}

/// A fire update keeps every cell settled.
proof fn lemma_fire_settled(o: World, n: World, x: int, y: int, cap: int)
    requires
        o.cells@.len() == CELLS,
        in_grid(x, y),
        0 <= cap,
        charge_settled(o, cap),
        !o.cells@[cell_index(x, y)].moved,
        cell_outcome(o, n, x, y),
        o.cells@[cell_index(x, y)].el == Element::Fire,
    ensures
        n.cells@.len() == CELLS,
        charge_settled(n, cap),
{
    lemma_index_in_range(x, y);
    let i = cell_index(x, y);
    let c = o.cells@[i];
    let (sl, smoke, ml) = choose|sl: u8, smoke: bool, ml: u8|
        #![trigger fire_rule(o, n, x, y, sl, smoke, ml)]
        60 <= sl < 120 && 80 <= ml < 160 && fire_rule(o, n, x, y, sl, smoke, ml);
    if o.touches(x, y, seq![Element::Water, Element::SaltWater, Element::Acid]) {
        lemma_placed_clears(o, n, x, y, Element::Steam, sl as int, sl + 1);
        lemma_cleared_settled(o, n, cap);
    } else if c.life <= 1 {
        if smoke {
            lemma_placed_clears(o, n, x, y, Element::Smoke, ml as int, ml + 1);
        } else {
            lemma_emptied_clears(o, n, i);
        }
        lemma_cleared_settled(o, n, cap);
    } else {
        let m = choose|m: World| #[trigger] aged(o, m, i) && gas_step(m, n, x, y);
        lemma_aged_settled(o, m, i, cap);
        lemma_moves_settled(m, n, x, y, cap);
    }
}

/// An ember update keeps every cell settled.
proof fn lemma_ember_settled(o: World, n: World, x: int, y: int, cap: int)
    requires
        o.cells@.len() == CELLS,
        in_grid(x, y),
        0 <= cap,
        charge_settled(o, cap),
        !o.cells@[cell_index(x, y)].moved,
        cell_outcome(o, n, x, y),
        o.cells@[cell_index(x, y)].el == Element::Ember,
    ensures
        n.cells@.len() == CELLS,
        charge_settled(n, cap),
{
    lemma_index_in_range(x, y);
    let i = cell_index(x, y);
    let c = o.cells@[i];

    let (flare, fl, ash, sl) = choose|flare: bool, fl: u8, ash: bool, sl: u8|
        #![trigger ember_rule(o, n, x, y, flare, fl, ash, sl)]
        40 <= fl < 90 && 60 <= sl < 120 && ember_rule(o, n, x, y, flare, fl, ash, sl);
    if o.touches(x, y, seq![Element::Water, Element::SaltWater]) {
        lemma_placed_clears(o, n, x, y, Element::Smoke, sl as int, sl + 1);
        lemma_cleared_settled(o, n, cap);
    } else {
        let m = choose|m: World|
            #[trigger] sparked(o, m, x, y, flare, fl) && if c.life <= 1 {
                if ash {
                    placed(m, n, x, y, Element::Ash, 0, 1)
                } else {
                    placed(m, n, x, y, Element::Smoke, sl as int, sl + 1)
                }
            } else {
                aged(m, n, i)
            };
        if flare && o.el_of(x, y - 1) == Element::Empty {
            lemma_placed_clears(o, m, x, y - 1, Element::Fire, fl as int, fl + 1);
            lemma_cleared_settled(o, m, cap);
        }
        if c.life <= 1 {
            if ash {
                lemma_placed_clears(m, n, x, y, Element::Ash, 0, 1);
            } else {
                lemma_placed_clears(m, n, x, y, Element::Smoke, sl as int, sl + 1);
            }
            lemma_cleared_settled(m, n, cap);
        } else {
            lemma_aged_settled(m, n, i, cap);
        }
    }
}

/// A fading update keeps every cell settled.
proof fn lemma_fading_settled(o: World, n: World, x: int, y: int, cap: int)
    requires
        o.cells@.len() == CELLS,
        in_grid(x, y),
        0 <= cap,
        charge_settled(o, cap),
        !o.cells@[cell_index(x, y)].moved,
        cell_outcome(o, n, x, y),
        o.cells@[cell_index(x, y)].el == Element::Smoke || o.cells@[cell_index(x, y)].el
            == Element::Toxic,
    ensures
        n.cells@.len() == CELLS,
        charge_settled(n, cap),
{
    lemma_index_in_range(x, y);
    let i = cell_index(x, y);
    let c = o.cells@[i];

    if c.life == 0 {
        lemma_emptied_clears(o, n, i);
        lemma_cleared_settled(o, n, cap);
    } else {
        let m = choose|m: World| #[trigger] aged(o, m, i) && gas_step(m, n, x, y);
        lemma_aged_settled(o, m, i, cap);
        lemma_moves_settled(m, n, x, y, cap);
    }
}

/// A steam update keeps every cell settled.
proof fn lemma_steam_settled(o: World, n: World, x: int, y: int, cap: int)
    requires
        o.cells@.len() == CELLS,
        in_grid(x, y),
        0 <= cap,
        charge_settled(o, cap),
        !o.cells@[cell_index(x, y)].moved,
        cell_outcome(o, n, x, y),
        o.cells@[cell_index(x, y)].el == Element::Steam,
    ensures
        n.cells@.len() == CELLS,
        charge_settled(n, cap),
{
    lemma_index_in_range(x, y);
    let i = cell_index(x, y);
    let c = o.cells@[i];

    let (early, to_water) = choose|early: bool, to_water: bool|
        #[trigger] steam_rule(o, n, x, y, early, to_water);
    if c.life == 0 || (o.temp@[i] < 90_000 && early) {
        if to_water {
            lemma_placed_clears(o, n, x, y, Element::Water, 0, 1);
        } else {
            lemma_emptied_clears(o, n, i);
        }
        lemma_cleared_settled(o, n, cap);
    } else {
        let m = choose|m: World| #[trigger] aged(o, m, i) && gas_step(m, n, x, y);
        lemma_aged_settled(o, m, i, cap);
        lemma_moves_settled(m, n, x, y, cap);
    }
}

/// An acid update keeps every cell settled.
proof fn lemma_acid_settled(o: World, n: World, x: int, y: int, cap: int)
    requires
        o.cells@.len() == CELLS,
        in_grid(x, y),
        0 <= cap,
        charge_settled(o, cap),
        !o.cells@[cell_index(x, y)].moved,
        cell_outcome(o, n, x, y),
        o.cells@[cell_index(x, y)].el == Element::Acid,
    ensures
        n.cells@.len() == CELLS,
        charge_settled(n, cap),
{
    lemma_index_in_range(x, y);
    let i = cell_index(x, y);
    let c = o.cells@[i];

    let (k, eat, vent, tl) = choose|k: int, eat: bool, vent: bool, tl: u8|
        #![trigger acid_rule(o, n, x, y, k, eat, vent, tl)]
        0 <= k < 4 && 60 <= tl < 120 && acid_rule(o, n, x, y, k, eat, vent, tl);
    let (nx, ny) = (x + dir4(k).0, y + dir4(k).1);
    if in_grid(nx, ny) && spec_dissolvable(o.el_of(nx, ny)) && eat {
        let m = choose|m: World|
            #[trigger] ate_away(o, m, nx, ny, vent, tl) && if c.life <= 1 {
                emptied(m, n, i)
            } else {
                aged(m, n, i)
            };
        if vent {
            lemma_placed_clears(o, m, nx, ny, Element::Toxic, tl as int, tl + 1);
        } else {
            lemma_emptied_clears(o, m, cell_index(nx, ny));
        }
        lemma_cleared_settled(o, m, cap);
        if c.life <= 1 {
            lemma_emptied_clears(m, n, i);
            lemma_cleared_settled(m, n, cap);
        } else {
            lemma_aged_settled(m, n, i, cap);
        }
    } else {
        lemma_moves_settled(o, n, x, y, cap);
    }
}

/// A plant update keeps every cell settled.
proof fn lemma_plant_settled(o: World, n: World, x: int, y: int, cap: int)
    requires
        o.cells@.len() == CELLS,
        in_grid(x, y),
        0 <= cap,
        charge_settled(o, cap),
        !o.cells@[cell_index(x, y)].moved,
        cell_outcome(o, n, x, y),
        o.cells@[cell_index(x, y)].el == Element::Plant,
    ensures
        n.cells@.len() == CELLS,
        charge_settled(n, cap),
{
    lemma_index_in_range(x, y);
    let (grow, k, drink) = choose|grow: bool, k: int, drink: bool|
        #![trigger plant_rule(o, n, x, y, grow, k, drink)]
        0 <= k < 4 && plant_rule(o, n, x, y, grow, k, drink);
    let (nx, ny) = (x + growth_dir(k).0, y + growth_dir(k).1);
    if grow && o.touches(x, y, seq![Element::Water, Element::SaltWater]) && o.el_of(nx, ny)
        == Element::Empty {
        let m = choose|m: World|
            #[trigger] grew(o, m, x, y, k) && if drink {
                drank(m, n, x, y)
            } else {
                stayed(m, n)
            };
        lemma_placed_clears(o, m, nx, ny, Element::Plant, 0, 1);
        lemma_cleared_settled(o, m, cap);
        if !stayed(m, n) {
            if m.el_of(x, y + 1) == Element::Water {
                lemma_index_in_range(x, y + 1);
                lemma_emptied_clears(m, n, cell_index(x, y + 1));
            } else if m.el_of(x + 1, y) == Element::Water {
                lemma_index_in_range(x + 1, y);
                lemma_emptied_clears(m, n, cell_index(x + 1, y));
            } else if m.el_of(x - 1, y) == Element::Water {
                lemma_index_in_range(x - 1, y);
                lemma_emptied_clears(m, n, cell_index(x - 1, y));
            } else {
                lemma_index_in_range(x, y - 1);
                lemma_emptied_clears(m, n, cell_index(x, y - 1));
            }
            lemma_cleared_settled(m, n, cap);
        }
    }
}

/// A seed update keeps every cell settled.
proof fn lemma_seed_settled(o: World, n: World, x: int, y: int, cap: int)
    requires
        o.cells@.len() == CELLS,
        in_grid(x, y),
        0 <= cap,
        charge_settled(o, cap),
        !o.cells@[cell_index(x, y)].moved,
        cell_outcome(o, n, x, y),
        o.cells@[cell_index(x, y)].el == Element::Seed,
    ensures
        n.cells@.len() == CELLS,
        charge_settled(n, cap),
{
    lemma_index_in_range(x, y);
    let i = cell_index(x, y);
    let c = o.cells@[i];

    let sprout = choose|sprout: bool| #[trigger] seed_rule(o, n, x, y, sprout);
    if sprout && o.touches(x, y, seq![Element::Water, Element::SaltWater]) {
        lemma_placed_clears(o, n, x, y, Element::Plant, 0, 1);
        lemma_cleared_settled(o, n, cap);
    } else {
        lemma_moves_settled(o, n, x, y, cap);
    }
}

/// A salt update keeps every cell settled.
proof fn lemma_salt_settled(o: World, n: World, x: int, y: int, cap: int)
    requires
        o.cells@.len() == CELLS,
        in_grid(x, y),
        0 <= cap,
        charge_settled(o, cap),
        !o.cells@[cell_index(x, y)].moved,
        cell_outcome(o, n, x, y),
        o.cells@[cell_index(x, y)].el == Element::Salt,
    ensures
        n.cells@.len() == CELLS,
        charge_settled(n, cap),
{
    lemma_index_in_range(x, y);
    let i = cell_index(x, y);
    let c = o.cells@[i];

    let dissolve = choose|dissolve: bool| #[trigger] salt_rule(o, n, x, y, dissolve);
    if dissolve && o.touches(x, y, seq![Element::Water]) {
        lemma_placed_clears(o, n, x, y, Element::SaltWater, 0, 1);
        lemma_cleared_settled(o, n, cap);
    } else {
        lemma_moves_settled(o, n, x, y, cap);
    }
}

/// An ant update keeps every cell settled.
proof fn lemma_ant_settled(o: World, n: World, x: int, y: int, cap: int)
    requires
        o.cells@.len() == CELLS,
        in_grid(x, y),
        0 <= cap,
        charge_settled(o, cap),
        !o.cells@[cell_index(x, y)].moved,
        cell_outcome(o, n, x, y),
        o.cells@[cell_index(x, y)].el == Element::Ant,
    ensures
        n.cells@.len() == CELLS,
        charge_settled(n, cap),
{
    lemma_index_in_range(x, y);
    let i = cell_index(x, y);
    let c = o.cells@[i];

    let (die, start, breed, d, climb) = choose|
        die: bool,
        start: int,
        breed: bool,
        d: int,
        climb: bool,
    |
        #![trigger ant_rule(o, n, x, y, die, start, breed, d, climb)]
        0 <= start < 4 && -1 <= d <= 1 && ant_rule(o, n, x, y, die, start, breed, d, climb);
    let f = first_food(o, x, y, start);
    let (fx, fy) = (x + dir4(f).0, y + dir4(f).1);
    if die && o.touches(
        x,
        y,
        seq![Element::Water, Element::SaltWater, Element::Lava, Element::Acid, Element::Fire],
    ) {
        lemma_emptied_clears(o, n, i);
        lemma_cleared_settled(o, n, cap);
    } else if f >= 0 {
        if breed {
            lemma_placed_clears(o, n, fx, fy, Element::Ant, 0, 1);
        } else {
            lemma_emptied_clears(o, n, cell_index(fx, fy));
        }
        lemma_cleared_settled(o, n, cap);
    } else if o.el_of(x, y + 1) == Element::Empty {
        lemma_went_settled(o, n, x, y, x, y + 1, true, cap);
    } else if d != 0 && o.el_of(x + d, y) == Element::Empty {
        lemma_went_settled(o, n, x, y, x + d, y, true, cap);
    } else if climb && o.el_of(x, y - 1) == Element::Empty {
        lemma_went_settled(o, n, x, y, x, y - 1, false, cap);
    }
}

/// A bomb update keeps every cell settled.
proof fn lemma_bomb_settled(o: World, n: World, x: int, y: int, cap: int)
    requires
        o.cells@.len() == CELLS,
        in_grid(x, y),
        0 <= cap,
        charge_settled(o, cap),
        !o.cells@[cell_index(x, y)].moved,
        cell_outcome(o, n, x, y),
        o.cells@[cell_index(x, y)].el == Element::Bomb,
    ensures
        n.cells@.len() == CELLS,
        charge_settled(n, cap),
{
    lemma_index_in_range(x, y);
    let i = cell_index(x, y);
    let c = o.cells@[i];

    if o.cells@[i].charge > 0 || o.temp@[i] > 200_000 || o.touches(
        x,
        y,
        seq![Element::Fire, Element::Ember, Element::Lava],
    ) {
        lemma_blast_clears(o, n, x, y, 16);
        lemma_cleared_settled(o, n, cap);
    } else {
        lemma_moves_settled(o, n, x, y, cap);
    }
}

/// A faucet update keeps every cell settled.
proof fn lemma_source_settled(o: World, n: World, x: int, y: int, cap: int)
    requires
        o.cells@.len() == CELLS,
        in_grid(x, y),
        0 <= cap,
        charge_settled(o, cap),
        !o.cells@[cell_index(x, y)].moved,
        cell_outcome(o, n, x, y),
        o.cells@[cell_index(x, y)].el == Element::WaterSource,
    ensures
        n.cells@.len() == CELLS,
        charge_settled(n, cap),
{
    let (d0, d1, d2) = choose|d0: bool, d1: bool, d2: bool| #[trigger] source_rule(o, n, x, y, d0, d1, d2);
    let (a, b) = choose|a: World, b: World|
        #![trigger dripped(o, a, x, y + 1, d0), dripped(a, b, x - 1, y, d1)]
        dripped(o, a, x, y + 1, d0) && dripped(a, b, x - 1, y, d1) && dripped(b, n, x + 1, y, d2);
    if !stayed(o, a) {
        lemma_placed_clears(o, a, x, y + 1, Element::Water, 0, 1);
        lemma_cleared_settled(o, a, cap);
    }
    if !stayed(a, b) {
        lemma_placed_clears(a, b, x - 1, y, Element::Water, 0, 1);
        lemma_cleared_settled(a, b, cap);
    }
    if !stayed(b, n) {
        lemma_placed_clears(b, n, x + 1, y, Element::Water, 0, 1);
        lemma_cleared_settled(b, n, cap);
    }
}

/// One update of the movement pass keeps every cell settled.
proof fn lemma_outcome_settled(o: World, n: World, x: int, y: int, cap: int)
    requires
        o.cells@.len() == CELLS,
        in_grid(x, y),
        0 <= cap,
        charge_settled(o, cap),
        cell_outcome(o, n, x, y),
    ensures
        n.cells@.len() == CELLS,
        charge_settled(n, cap),
{
    lemma_index_in_range(x, y);
    let i = cell_index(x, y);
    let c = o.cells@[i];
    if c.moved {
        return;
    }
    match c.el {
        Element::Empty | Element::Wall | Element::Stone | Element::Glass | Element::Metal => {},
        Element::Fire => lemma_fire_settled(o, n, x, y, cap),
        Element::Ember => lemma_ember_settled(o, n, x, y, cap),
        Element::Smoke | Element::Toxic => lemma_fading_settled(o, n, x, y, cap),
        Element::Steam => lemma_steam_settled(o, n, x, y, cap),
        Element::Acid => lemma_acid_settled(o, n, x, y, cap),
        Element::Plant => lemma_plant_settled(o, n, x, y, cap),
        Element::Seed => lemma_seed_settled(o, n, x, y, cap),
        Element::Salt => lemma_salt_settled(o, n, x, y, cap),
        Element::Ant => lemma_ant_settled(o, n, x, y, cap),
        Element::Bomb => lemma_bomb_settled(o, n, x, y, cap),
        Element::WaterSource => lemma_source_settled(o, n, x, y, cap),
        other => {
            if spec_props(other).cat == Cat::Powder || spec_props(other).cat == Cat::Liquid
                || spec_props(other).cat == Cat::Gas {
                lemma_moves_settled(o, n, x, y, cap);
            }
        },
    }
}

/// One visit of the charge pass, at row-major position `k`, keeps the grid
/// capped and leaves every visited cell settled.
proof fn lemma_charge_link(o: World, n: World, ch: Seq<u8>, k: int, cap: int)
    requires
        o.cells@.len() == CELLS,
        0 <= k < CELLS,
        0 <= cap,
        charge_capped(o, cap),
        forall|j: int| 0 <= j < k ==> #[trigger] settled_cell(o.cells@[j], cap),
        ch.len() == CELLS,
        forall|j: int| 0 <= j < CELLS ==> #[trigger] ch[j] <= cap,
        charged_cell(o, n, ch, row_major(k).0, row_major(k).1),
    ensures
        n.cells@.len() == CELLS,
        charge_capped(n, cap),
        forall|j: int| 0 <= j <= k ==> #[trigger] settled_cell(n.cells@[j], cap),
{
    lemma_index_of(k);
    let (x, y) = row_major(k);
    assert(cell_index(x, y) == k);
    if !spec_conductive(o.cells@[k].el) {
        assert forall|j: int| 0 <= j <= k implies #[trigger] settled_cell(n.cells@[j], cap) by {
            if j < k {
                assert(settled_cell(o.cells@[j], cap));
            }
        }
    } else if ch[k] > 0 {
        let (a, b, d, e) = choose|a: World, b: World, d: World, e: World|
            #[trigger] fired(o, a, b, d, e, x, y) && n.cells@ == e.cells@.update(
                k,
                with_charge(e.cells@[k], 0),
            ) && n.temp@ == e.temp@;
        lemma_set_off_clears(o, a, x, y + 1);
        lemma_set_off_clears(a, b, x, y - 1);
        lemma_set_off_clears(b, d, x + 1, y);
        lemma_set_off_clears(d, e, x - 1, y);
        lemma_kept_or_cleared_trans(o, a, b);
        lemma_kept_or_cleared_trans(o, b, d);
        lemma_kept_or_cleared_trans(o, d, e);
        lemma_kept_or_cleared(o, e, cap);
        assert forall|j: int| 0 <= j <= k implies #[trigger] settled_cell(n.cells@[j], cap) by {
            if j < k {
                assert(settled_cell(o.cells@[j], cap));
                assert(e.cells@[j] == o.cells@[j] || e.cells@[j].charge == 0);
            }
        }
        assert forall|j: int| 0 <= j < n.cells@.len() implies #[trigger] n.cells@[j].charge <= cap by {
            assert(e.cells@[j].charge <= cap);
        }
    } else {
        let f = charge_formula(o.cells@, ch, x, y);
        let p0 = passed_now(o.cells@, ch, x, y + 1);
        let p1 = passed_now(o.cells@, ch, x, y - 1);
        let p2 = passed_now(o.cells@, ch, x + 1, y);
        let p3 = passed_now(o.cells@, ch, x - 1, y);
        if in_grid(x, y + 1) {
            lemma_index_in_range(x, y + 1);
        }
        if in_grid(x, y - 1) {
            lemma_index_in_range(x, y - 1);
        }
        if in_grid(x + 1, y) {
            lemma_index_in_range(x + 1, y);
        }
        if in_grid(x - 1, y) {
            lemma_index_in_range(x - 1, y);
        }
        assert(0 <= p0 && (p0 == 0 || p0 < cap) && p0 < 255);
        assert(0 <= p1 && (p1 == 0 || p1 < cap) && p1 < 255);
        assert(0 <= p2 && (p2 == 0 || p2 < cap) && p2 < 255);
        assert(0 <= p3 && (p3 == 0 || p3 < cap) && p3 < 255);
        assert(0 <= f && (f == 0 || f < cap) && f < 255);
        assert forall|j: int| 0 <= j <= k implies #[trigger] settled_cell(n.cells@[j], cap) by {
            if j < k {
                assert(settled_cell(o.cells@[j], cap));
            }
        }
        assert forall|j: int| 0 <= j < n.cells@.len() implies #[trigger] n.cells@[j].charge <= cap by {
            assert(o.cells@[j].charge <= cap);
        }
    }
}

/// The charge pass, visited up to position `k`, keeps the grid capped and
/// the visited cells settled.
proof fn lemma_charge_prefix(a: World, b: World, t: Seq<World>, k: int, cap: int)
    requires
        a.cells@.len() == CELLS,
        0 <= cap,
        charge_capped(a, cap),
        charge_trace(a, b, t),
        0 <= k <= CELLS,
    ensures
        t[k].cells@.len() == CELLS,
        charge_capped(t[k], cap),
        forall|j: int| 0 <= j < k ==> #[trigger] settled_cell(t[k].cells@[j], cap),
    decreases k,
{
    if k > 0 {
        lemma_charge_prefix(a, b, t, k - 1, cap);
        assert(charge_link(t, charges(a), k - 1));
        assert forall|j: int| 0 <= j < CELLS implies #[trigger] charges(a)[j] <= cap by {
            assert(a.cells@[j].charge <= cap);
        }
        lemma_charge_link(t[k - 1], t[k], charges(a), k - 1, cap);
    }
}

/// The movement pass, up to position `k`, keeps every cell settled.
proof fn lemma_scan_settled_prefix(a: World, b: World, t: Seq<World>, k: int, cap: int)
    requires
        a.cells@.len() == CELLS,
        0 <= cap,
        charge_settled(a, cap),
        scan_trace(a, b, t),
        0 <= k <= CELLS,
    ensures
        t[k].cells@.len() == CELLS,
        charge_settled(t[k], cap),
    decreases k,
{
    if k > 0 {
        lemma_scan_settled_prefix(a, b, t, k - 1, cap);
        let (x, y) = scan_cell(a.frame, k - 1);
        assert(scan_link(t, a.frame, k - 1));
        lemma_scan_cell_in_grid(a.frame, k - 1);
        lemma_outcome_settled(t[k - 1], t[k], x, y, cap);
    }
}

/// The phase changes, up to position `k`, keep every cell settled.
proof fn lemma_phase_settled_prefix(a: World, b: World, t: Seq<World>, k: int, cap: int)
    requires
        a.cells@.len() == CELLS,
        0 <= cap,
        charge_settled(a, cap),
        phase_trace(a, b, t),
        0 <= k <= CELLS,
    ensures
        t[k].cells@.len() == CELLS,
        charge_settled(t[k], cap),
    decreases k,
{
    if k > 0 {
        lemma_phase_settled_prefix(a, b, t, k - 1, cap);
        lemma_index_of(k - 1);
        let (x, y) = row_major(k - 1);
        let (o, n) = (t[k - 1], t[k]);
        assert(phase_link(t, k - 1));
        let i = cell_index(x, y);
        match phase_target(o.cells@[i].el, o.temp@[i]) {
            Some(e) => {
                lemma_spawn_clears(o, n, i, e, n.cells@[i].life);
            },
            None => {
                if o.cells@[i].el == Element::Gunpowder && o.temp@[i] >= 150_000 {
                    lemma_blast_clears(o, n, x, y, 7);
                } else {
                    assert(kept_or_cleared(o, n));
                }
            },
        }
        lemma_kept_or_cleared(o, n, cap);
    }
}

/// Charge dies out: if no cell holds more than `cap` charge, then after a
/// step charge lives only on conductors, each holding less than `cap`; so
/// without new sparks all charge is gone within `cap` steps.
pub proof fn lemma_charge_dies_out(a: World, b: World, cap: int)
    requires
        a.wf(),
        stepped(a, b),
        0 <= cap,
        charge_capped(a, cap),
    ensures
        charge_settled(b, cap),
{
    let (s1, s2, s3, s4) = choose|s1: World, s2: World, s3: World, s4: World|
        {
            &&& flags_cleared(a, s1)
            &&& charge_step(s1, s2)
            &&& crate::world::local_step(s2, s3)
            &&& crate::behaviour::scan_pass(s2, s3)
            &&& heat_step(s3, s4)
            &&& b.cells@ == s4.cells@
            &&& b.temp@ == s4.temp@
        };
    assert forall|j: int| 0 <= j < s1.cells@.len() implies #[trigger] s1.cells@[j].charge <= cap by {
        assert(a.cells@[j].charge <= cap);
    }
    let t = choose|t: Seq<World>| charge_trace(s1, s2, t);
    lemma_charge_prefix(s1, s2, t, CELLS as int, cap);
    let u = choose|u: Seq<World>| scan_trace(s2, s3, u);
    lemma_scan_settled_prefix(s2, s3, u, CELLS as int, cap);
    let (d, p) = choose|d: World, p: Seq<World>|
        diffused_from(s3, d) && crate::world::local_step(d, s4) && phase_trace(d, s4, p);
    lemma_phase_settled_prefix(d, s4, p, CELLS as int, cap);
}

/// Walls are indestructible: whatever a step does, no wall appears or
/// disappears.
pub proof fn lemma_step_keeps_walls(a: World, b: World)
    requires
        a.wf(),
        stepped(a, b),
    ensures
        walls_kept(a.cells@, b.cells@),
{
    let (s1, s2, s3, s4) = choose|s1: World, s2: World, s3: World, s4: World|
        {
            &&& flags_cleared(a, s1)
            &&& charge_step(s1, s2)
            &&& crate::world::local_step(s2, s3)
            &&& crate::behaviour::scan_pass(s2, s3)
            &&& heat_step(s3, s4)
            &&& b.cells@ == s4.cells@
            &&& b.temp@ == s4.temp@
        };
    assert(walls_kept(a.cells@, s1.cells@)) by {
        assert forall|i: int| 0 <= i < a.cells@.len() implies (#[trigger] a.cells@[i].el
            == Element::Wall <==> s1.cells@[i].el == Element::Wall) by {
            assert(s1.cells@[i] == Cell { moved: false, ..a.cells@[i] });
        }
    }
    lemma_walls_trans(a.cells@, s1.cells@, s2.cells@);
    lemma_walls_trans(a.cells@, s2.cells@, s3.cells@);
    lemma_walls_trans(a.cells@, s3.cells@, s4.cells@);
}

/// Metal, water, brine and mercury: the materials that carry charge.
pub open spec fn carries_charge(el: Element) -> bool {
    el == Element::Metal || el == Element::Water || el == Element::SaltWater || el
        == Element::Mercury
}

/// Is (nx, ny) one of the four cells next to (x, y): below, above, right or left?
pub open spec fn next_to(x: int, y: int, nx: int, ny: int) -> bool {
    ||| nx == x && (ny == y + 1 || ny == y - 1)
    ||| ny == y && (nx == x + 1 || nx == x - 1)
}

/// Charge flows through wires in every direction: when the charge pass visits
/// an uncharged conductor, it takes at least one less than the charge any
/// conducting neighbour (below, above, right or left) held at the start of the
/// pass, and stays the same material.
pub proof fn lemma_charge_flows_every_way(
    o: World,
    n: World,
    ch: Seq<u8>,
    x: int,
    y: int,
    nx: int,
    ny: int,
)
    requires
        o.cells@.len() == CELLS,
        ch.len() == CELLS,
        in_grid(x, y),
        in_grid(nx, ny),
        next_to(x, y, nx, ny),
        carries_charge(o.cells@[cell_index(x, y)].el),
        ch[cell_index(x, y)] == 0,
        carries_charge(o.cells@[cell_index(nx, ny)].el),
        ch[cell_index(nx, ny)] > 1,
        charged_cell(o, n, ch, x, y),
    ensures
        n.cells@[cell_index(x, y)].charge >= ch[cell_index(nx, ny)] - 1,
        n.cells@[cell_index(x, y)].el == o.cells@[cell_index(x, y)].el,
{
    lemma_index_in_range(x, y);
    lemma_index_in_range(nx, ny);
    let c = o.cells@;
    let p = passed_now(c, ch, nx, ny);
    assert(p == ch[cell_index(nx, ny)] - 1);
    let f = charge_formula(c, ch, x, y);
    assert(f >= p);
    assert(f <= 254) by {
        if in_grid(x, y + 1) {
            lemma_index_in_range(x, y + 1);
        }
        if in_grid(x, y - 1) {
            lemma_index_in_range(x, y - 1);
        }
        if in_grid(x + 1, y) {
            lemma_index_in_range(x + 1, y);
        }
        if in_grid(x - 1, y) {
            lemma_index_in_range(x - 1, y);
        }
    }
}

/// On a quiet grid the charge pass is a wave one cell per frame in every
/// direction: an uncharged conductor next to a conductor holding charge
/// `c > 1` holds at least `c - 1` afterwards, and a charged conductor goes
/// quiet.
pub proof fn lemma_quiet_wave(a: World, b: World, x: int, y: int, nx: int, ny: int)
    requires
        a.wf(),
        charge_step(a, b),
        quiet(a.cells@),
        in_grid(x, y),
        in_grid(nx, ny),
        next_to(x, y, nx, ny),
        carries_charge(a.cells@[cell_index(x, y)].el),
        carries_charge(a.cells@[cell_index(nx, ny)].el),
    ensures
        a.cells@[cell_index(x, y)].charge == 0 && a.cells@[cell_index(nx, ny)].charge > 1
            ==> b.cells@[cell_index(x, y)].charge >= a.cells@[cell_index(nx, ny)].charge - 1,
        a.cells@[cell_index(nx, ny)].charge > 0 ==> b.cells@[cell_index(nx, ny)].charge == 0,
        b.cells@[cell_index(x, y)].el == a.cells@[cell_index(x, y)].el,
{
    lemma_index_in_range(x, y);
    lemma_index_in_range(nx, ny);
    let c = a.cells@;
    assert(b.cells@[cell_index(x, y)] == (Cell {
        charge: next_charge(c, x, y) as u8,
        ..c[cell_index(x, y)]
    }));
    assert(b.cells@[cell_index(nx, ny)] == (Cell {
        charge: next_charge(c, nx, ny) as u8,
        ..c[cell_index(nx, ny)]
    }));
    if c[cell_index(x, y)].charge == 0 && c[cell_index(nx, ny)].charge > 1 {
        if in_grid(x, y + 1) {
            lemma_index_in_range(x, y + 1);
        }
        if in_grid(x, y - 1) {
            lemma_index_in_range(x, y - 1);
        }
        if in_grid(x + 1, y) {
            lemma_index_in_range(x + 1, y);
        }
        if in_grid(x - 1, y) {
            lemma_index_in_range(x - 1, y);
        }
        assert(passed_charge(c, nx, ny) == c[cell_index(nx, ny)].charge - 1);
        assert(next_charge(c, x, y) >= passed_charge(c, nx, ny));
    }
}

/// Anything denser sinks through a different, lighter liquid or gas: a
/// mover of greater density can always move down into such a cell, whatever
/// the mover is (a powder, a liquid or a solid).
pub proof fn lemma_denser_sinks(mover: Element, target: Element)
    requires
        spec_props(target).cat == Cat::Liquid || spec_props(target).cat == Cat::Gas,
        target != mover,
        spec_props(mover).density > spec_props(target).density,
    ensures
        can_displace(mover, target, true),
{
}

/// Anything lighter rises through a different, denser liquid or gas: a mover
/// of smaller density can always move up into such a cell.
pub proof fn lemma_lighter_rises(mover: Element, target: Element)
    requires
        spec_props(target).cat == Cat::Liquid || spec_props(target).cat == Cat::Gas,
        target != mover,
        spec_props(mover).density < spec_props(target).density,
    ensures
        can_displace(mover, target, false),
{
}

/// A gas under empty space or a denser, different fluid rises straight up:
/// after its move it is in the cell above and what was there has taken its
/// place, each with its temperature.
pub proof fn lemma_gas_rises(o: World, n: World, x: int, y: int)
    requires
        o.cells@.len() == CELLS,
        o.temp@.len() == CELLS,
        in_grid(x, y),
        in_grid(x, y - 1),
        ({
            let a = o.cells@[cell_index(x, y)].el;
            let b = o.cells@[cell_index(x, y - 1)].el;
            ||| b == Element::Empty
            ||| {
                &&& spec_props(b).cat == Cat::Liquid || spec_props(b).cat == Cat::Gas
                &&& b != a
                &&& spec_props(a).density < spec_props(b).density
            }
        }),
        gas_step(o, n, x, y),
    ensures
        n.cells@[cell_index(x, y - 1)].el == o.cells@[cell_index(x, y)].el,
        n.cells@[cell_index(x, y)].el == o.cells@[cell_index(x, y - 1)].el,
        n.temp@[cell_index(x, y - 1)] == o.temp@[cell_index(x, y)],
        n.temp@[cell_index(x, y)] == o.temp@[cell_index(x, y - 1)],
{
    lemma_index_in_range(x, y);
    lemma_index_in_range(x, y - 1);
    if o.cells@[cell_index(x, y - 1)].el != Element::Empty {
        lemma_lighter_rises(o.cells@[cell_index(x, y)].el, o.cells@[cell_index(x, y - 1)].el);
    }
}

/// A powder over a lighter, different liquid or gas sinks into it: after its
/// move the powder is in the cell below and the fluid has taken its place,
/// each with its temperature.
pub proof fn lemma_powder_sinks(o: World, n: World, x: int, y: int)
    requires
        o.cells@.len() == CELLS,
        o.temp@.len() == CELLS,
        in_grid(x, y),
        in_grid(x, y + 1),
        ({
            let a = o.cells@[cell_index(x, y)].el;
            let b = o.cells@[cell_index(x, y + 1)].el;
            &&& spec_props(b).cat == Cat::Liquid || spec_props(b).cat == Cat::Gas
            &&& b != a
            &&& spec_props(a).density > spec_props(b).density
        }),
        powder_step(o, n, x, y),
    ensures
        n.cells@[cell_index(x, y + 1)].el == o.cells@[cell_index(x, y)].el,
        n.cells@[cell_index(x, y)].el == o.cells@[cell_index(x, y + 1)].el,
        n.temp@[cell_index(x, y + 1)] == o.temp@[cell_index(x, y)],
        n.temp@[cell_index(x, y)] == o.temp@[cell_index(x, y + 1)],
{
    lemma_index_in_range(x, y);
    lemma_index_in_range(x, y + 1);
    lemma_denser_sinks(o.cells@[cell_index(x, y)].el, o.cells@[cell_index(x, y + 1)].el);
}

/// Temperature drives phase: when a phase change visits a cell, lava at or
/// below 560 degrees becomes stone; water or brine at or above 100 degrees
/// boils to steam; water at or below 0 freezes to ice; ice and snow at or
/// above 2 degrees melt to water; wood at or above 280 and plants at or above
/// 180 degrees catch as embers; oil at or above 250 degrees bursts into fire;
/// metal at 1200 degrees melts to lava.
pub proof fn lemma_phase_thresholds(o: World, n: World, x: int, y: int)
    requires
        o.cells@.len() == CELLS,
        in_grid(x, y),
        phase_outcome(o, n, x, y),
    ensures
        ({
            let el = o.cells@[cell_index(x, y)].el;
            let t = o.temp@[cell_index(x, y)];
            let e = n.cells@[cell_index(x, y)].el;
            &&& el == Element::Lava && t <= 560_000 ==> e == Element::Stone
            &&& (el == Element::Water || el == Element::SaltWater) && t >= 100_000 ==> e
                == Element::Steam
            &&& el == Element::Water && t <= 0 ==> e == Element::Ice
            &&& (el == Element::Ice || el == Element::Snow) && t >= 2_000 ==> e == Element::Water
            &&& el == Element::Wood && t >= 280_000 ==> e == Element::Ember
            &&& el == Element::Plant && t >= 180_000 ==> e == Element::Ember
            &&& el == Element::Oil && t >= 250_000 ==> e == Element::Fire
            &&& el == Element::Metal && t >= 1_200_000 ==> e == Element::Lava
        }),
{
    lemma_index_in_range(x, y);
}

/// The spark tool charges every conductor it touches, metal or liquid, to
/// 18, and changes nothing else about the cell; other cells are left alone.
pub proof fn lemma_zap_charges_conductors(oc: Cell, nc: Cell)
    requires
        zap_effect(oc, nc),
    ensures
        carries_charge(oc.el) ==> nc.charge == 18,
        nc.el == oc.el && nc.life == oc.life && nc.ra == oc.ra && nc.moved == oc.moved,
        !carries_charge(oc.el) ==> nc == oc,
{
}

/// Plant, wood, sand, seed and ash: what ants eat.
pub open spec fn ant_eats(el: Element) -> bool {
    el == Element::Plant || el == Element::Wood || el == Element::Sand || el == Element::Seed
        || el == Element::Ash
}

/// An ant that does not die eats: if any neighbour holds plant, wood, sand,
/// seed or ash, then afterwards one such neighbour has been eaten, leaving
/// nothing or a new ant.
pub proof fn lemma_ant_eats(
    o: World,
    n: World,
    x: int,
    y: int,
    die: bool,
    start: int,
    breed: bool,
    d: int,
    climb: bool,
)
    requires
        o.cells@.len() == CELLS,
        in_grid(x, y),
        0 <= start < 4,
        !die,
        exists|k: int| 0 <= k < 4 && #[trigger] ant_eats(o.el_of(x + dir4(k).0, y + dir4(k).1)),
        ant_rule(o, n, x, y, die, start, breed, d, climb),
    ensures
        exists|k: int|
            0 <= k < 4 && #[trigger] ant_eats(o.el_of(x + dir4(k).0, y + dir4(k).1)) && (n.el_of(
                x + dir4(k).0,
                y + dir4(k).1,
            ) == Element::Empty || n.el_of(x + dir4(k).0, y + dir4(k).1) == Element::Ant),
{
    let k0 = choose|k: int| 0 <= k < 4 && #[trigger] ant_eats(o.el_of(x + dir4(k).0, y + dir4(k).1));
    assert(food_at(o, x, y, k0));
    assert(k0 == look_dir(start, 0) || k0 == look_dir(start, 1) || k0 == look_dir(start, 2)
        || k0 == look_dir(start, 3));
    let f = first_food(o, x, y, start);
    assert(f >= 0);
    assert(food_at(o, x, y, f));
    let (fx, fy) = (x + dir4(f).0, y + dir4(f).1);
    assert(in_grid(fx, fy));
    lemma_index_in_range(fx, fy);
    assert(ant_eats(o.el_of(fx, fy)));
    assert(n.el_of(fx, fy) == Element::Empty || n.el_of(fx, fy) == Element::Ant);
}

} // verus!
