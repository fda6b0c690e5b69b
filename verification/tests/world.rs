use sand::element::Element;
use sand::world::{fire_color, idx, in_bounds, shade, Cell, World, AMBIENT, CELLS, H, W};

#[test]
fn sand_falls() {
    let mut w = World::new();
    w.spawn(10, 10, Element::Sand, 0);
    // a grain only descends one row per frame, so allow enough frames to
    // reach the floor of the world.
    for _ in 0..(H as i32 + 20) {
        w.step();
    }
    assert_eq!(w.el_at(10, (H - 1) as i32), Element::Sand);
    assert_eq!(w.el_at(10, 10), Element::Empty);
}

/// Build walls around an interior rectangle so liquids can't escape.
fn sealed_box(w: &mut World, x0: i32, y0: i32, x1: i32, y1: i32) {
    for x in x0..=x1 {
        w.spawn(x, y0, Element::Wall, 0);
        w.spawn(x, y1, Element::Wall, 0);
    }
    for y in y0..=y1 {
        w.spawn(x0, y, Element::Wall, 0);
        w.spawn(x1, y, Element::Wall, 0);
    }
}

#[test]
fn oil_floats_on_water() {
    let mut w = World::new();
    let (x0, y0, x1, y1) = (3, 3, 12, 40);
    sealed_box(&mut w, x0, y0, x1, y1);
    // fill the interior with water, then drop oil at the very bottom row
    for y in (y0 + 1)..y1 {
        for x in (x0 + 1)..x1 {
            w.spawn(x, y, Element::Water, 0);
        }
    }
    for x in (x0 + 1)..x1 {
        w.spawn(x, y1 - 1, Element::Oil, 0);
    }
    for _ in 0..400 {
        w.step();
    }
    // oil (lighter) should rise above water: its lowest cell sits higher
    // (smaller y) than the highest water cell.
    let mut oil_min = i32::MAX;
    let mut water_max = i32::MIN;
    for y in y0..=y1 {
        for x in x0..=x1 {
            match w.el_at(x, y) {
                Element::Oil => oil_min = oil_min.min(y),
                Element::Water => water_max = water_max.max(y),
                _ => {}
            }
        }
    }
    assert!(oil_min != i32::MAX, "oil should still exist");
    assert!(water_max != i32::MIN, "water should still exist");
    assert!(
        oil_min < water_max,
        "oil (min y {oil_min}) should layer above water (max y {water_max})"
    );
}

#[test]
fn lava_and_water_make_stone_and_steam() {
    let mut w = World::new();
    w.spawn(20, 20, Element::Lava, 0);
    for (dx, dy) in [(0, 1), (1, 0), (-1, 0), (0, -1)] {
        w.spawn(20 + dx, 20 + dy, Element::Water, 0);
    }
    let mut saw_steam = false;
    for _ in 0..120 {
        w.step();
        for i in 0..w.cells.len() {
            if w.cells[i].el == Element::Steam {
                saw_steam = true;
            }
        }
    }
    assert!(saw_steam, "water touching lava should boil into steam");
}

#[test]
fn new_world_is_empty_and_ambient() {
    let w = World::new();
    assert_eq!(w.cells.len(), CELLS);
    assert_eq!(w.temp.len(), W * H);
    assert!(w.cells.iter().all(|c| *c == Cell::empty()));
    assert!(w.temp.iter().all(|&t| t == AMBIENT));
    assert_eq!(w.frame, 0);
}

#[test]
fn world_edge_is_wall() {
    let w = World::new();
    assert_eq!(w.el_at(-1, 5), Element::Wall);
    assert_eq!(w.el_at(W as i32, 5), Element::Wall);
    assert_eq!(w.el_at(5, H as i32), Element::Wall);
    assert_eq!(w.el_at(5, -1), Element::Wall);
    assert_eq!(w.el_at(0, 0), Element::Empty);
}

#[test]
fn index_and_bounds() {
    assert_eq!(idx(0, 0), 0);
    assert_eq!(idx(3, 2), 2 * 320 + 3);
    assert_eq!(idx(319, 199), CELLS - 1);
    assert!(in_bounds(0, 0));
    assert!(in_bounds(319, 199));
    assert!(!in_bounds(320, 0));
    assert!(!in_bounds(0, 200));
    assert!(!in_bounds(-1, 0));
}

#[test]
fn spawn_seeds_natural_temperature() {
    let mut w = World::new();
    w.spawn(5, 5, Element::Lava, 7);
    let i = idx(5, 5);
    assert_eq!(w.cells[i].el, Element::Lava);
    assert_eq!(w.cells[i].life, 7);
    assert_eq!(w.cells[i].charge, 0);
    assert!(w.cells[i].moved);
    assert_eq!(w.temp[i], 1_200_000);
    w.spawn(6, 5, Element::Sand, 0);
    assert_eq!(w.temp[idx(6, 5)], AMBIENT);
    // outside the grid nothing happens
    w.spawn(-3, 5, Element::Sand, 0);
    assert_eq!(w.cells.iter().filter(|c| c.el != Element::Empty).count(), 2);
}

#[test]
fn paint_fills_a_disc_and_spares_walls() {
    let mut w = World::new();
    w.spawn(50, 50, Element::Wall, 0);
    w.paint(50, 50, 2, Element::Sand);
    // the disc of radius 2 has 13 cells; the wall is left alone
    let sand = w.cells.iter().filter(|c| c.el == Element::Sand).count();
    assert_eq!(sand, 12);
    assert_eq!(w.el_at(50, 50), Element::Wall);
    assert_eq!(w.el_at(52, 50), Element::Sand);
    assert_eq!(w.el_at(52, 52), Element::Empty); // corner outside the disc
    // painting wall does overwrite, the eraser clears everything
    w.paint(50, 50, 2, Element::Empty);
    assert!(w.cells.iter().all(|c| c.el == Element::Empty));
    // fire gets a default life in range
    w.paint(10, 10, 0, Element::Fire);
    let life = w.cells[idx(10, 10)].life;
    assert!((40..90).contains(&life));
    assert_eq!(w.temp[idx(10, 10)], 720_000);
}

#[test]
fn paint_negative_radius_is_a_no_op() {
    let mut w = World::new();
    w.paint(10, 10, -1, Element::Sand);
    assert!(w.cells.iter().all(|c| c.el == Element::Empty));
}

#[test]
fn zap_charges_only_conductors() {
    let mut w = World::new();
    w.spawn(30, 30, Element::Metal, 0);
    w.spawn(31, 30, Element::Wood, 0);
    w.zap(30, 30, 1);
    assert_eq!(w.cells[idx(30, 30)].charge, 18);
    assert_eq!(w.cells[idx(31, 30)].charge, 0);
}

#[test]
fn charge_travels_one_cell_per_frame() {
    let mut w = World::new();
    for x in 40..50 {
        w.spawn(x, 100, Element::Metal, 0);
    }
    w.zap(40, 100, 0);
    w.step();
    // the charged cell fired and went quiet; its neighbour picked up 17
    assert_eq!(w.cells[idx(40, 100)].charge, 0);
    assert_eq!(w.cells[idx(41, 100)].charge, 17);
    assert_eq!(w.cells[idx(42, 100)].charge, 0);
    w.step();
    assert_eq!(w.cells[idx(41, 100)].charge, 0);
    assert_eq!(w.cells[idx(42, 100)].charge, 16);
}

#[test]
fn walls_survive_an_explosion() {
    let mut w = World::new();
    for x in 60..70 {
        w.spawn(x, 60, Element::Wall, 0);
    }
    w.spawn(65, 59, Element::Bomb, 0);
    w.spawn(66, 59, Element::Fire, 80);
    for _ in 0..5 {
        w.step();
    }
    for x in 60..70 {
        assert_eq!(w.el_at(x, 60), Element::Wall);
    }
    assert_ne!(w.el_at(65, 59), Element::Bomb);
}

#[test]
fn clear_resets_cells_and_temperature() {
    let mut w = World::new();
    w.paint(100, 100, 3, Element::Lava);
    w.step();
    w.clear();
    assert!(w.cells.iter().all(|c| *c == Cell::empty()));
    assert!(w.temp.iter().all(|&t| t == AMBIENT));
    assert_eq!(w.frame, 1);
}

#[test]
fn fire_color_values() {
    assert_eq!(fire_color(0), [255, 60, 10, 255]);
    assert_eq!(fire_color(45), [255, 145, 65, 255]);
    assert_eq!(fire_color(90), [255, 230, 120, 255]);
    assert_eq!(fire_color(200), [255, 230, 120, 255]);
}

#[test]
fn shade_values() {
    assert_eq!(shade((10, 20, 30), 99, 0), [10, 20, 30, 255]);
    // span 5: 7 % 5 = 2, delta = 2 - 2 = 0
    assert_eq!(shade((10, 20, 30), 7, 2), [10, 20, 30, 255]);
    // 9 % 5 = 4, delta = +2; clamped at 255
    assert_eq!(shade((254, 0, 30), 9, 2), [255, 2, 32, 255]);
    // 5 % 5 = 0, delta = -2; clamped at 0
    assert_eq!(shade((1, 0, 30), 5, 2), [0, 0, 28, 255]);
}

#[test]
fn color_values() {
    let mut w = World::new();
    assert_eq!(w.color_at(0), [12, 12, 16, 255]);
    let i = idx(1, 0);
    w.cells[i] = Cell { el: Element::Smoke, ra: 0, life: 80, charge: 0, moved: false };
    assert_eq!(w.color_at(i), [60, 60, 66, 255]);
    w.cells[i] = Cell { el: Element::Lava, ra: 0, life: 0, charge: 0, moved: false };
    w.temp[i] = 1_010_000;
    assert_eq!(w.color_at(i), [210, 140, 40, 255]);
    w.temp[i] = 100_000;
    assert_eq!(w.color_at(i), [210, 80, 20, 255]);
    // a charged metal cell glows: Metal colour (150,155,165), var 10, ra 10 -> delta 0
    w.cells[i] = Cell { el: Element::Metal, ra: 10, life: 0, charge: 9, moved: false };
    assert_eq!(w.color_at(i), [210, 235, 255, 255]);
    w.cells[i].charge = 18;
    assert_eq!(w.color_at(i), [255, 255, 255, 255]);
}

#[test]
fn heat_diffuses_toward_neighbours() {
    let mut w = World::new();
    let i = idx(100, 100);
    w.temp[i] = 1_000_000;
    w.step();
    // the hot cell cools, a neighbour warms
    assert!(w.temp[i] < 1_000_000);
    assert!(w.temp[idx(101, 100)] > AMBIENT);
    // an untouched distant cell stays at ambient
    assert_eq!(w.temp[idx(10, 10)], AMBIENT);
}

#[test]
fn ant_eats_food_next_to_it() {
    let mut w = World::new();
    for x in 8..14 {
        w.spawn(x, 11, Element::Stone, 0);
    }
    w.spawn(10, 10, Element::Ant, 0);
    w.spawn(11, 10, Element::Sand, 0);
    w.step();
    let food = w.el_at(11, 10);
    assert!(food == Element::Ant || food == Element::Empty);
    assert_eq!(w.el_at(10, 10), Element::Ant);
}

#[test]
fn salt_falls_when_dry() {
    let mut w = World::new();
    w.spawn(20, 20, Element::Salt, 0);
    w.step();
    assert_eq!(w.el_at(20, 20), Element::Empty);
    assert_eq!(w.el_at(20, 21), Element::Salt);
}

#[test]
fn empty_world_stays_at_rest() {
    let mut w = World::new();
    for _ in 0..3 {
        w.step();
    }
    assert_eq!(w.frame, 3);
    assert!(w.cells.iter().all(|c| c.el == Element::Empty && c.charge == 0 && c.life == 0));
    assert!(w.temp.iter().all(|&t| t == AMBIENT));
}

#[test]
fn charge_dies_out() {
    let mut w = World::new();
    for x in 40..80 {
        w.spawn(x, 100, Element::Metal, 0);
    }
    w.zap(60, 100, 2);
    let mut peak = 18u8;
    for _ in 0..18 {
        w.step();
        let now = w.cells.iter().map(|c| c.charge).max().unwrap();
        assert!(now < peak || now == 0);
        assert!(w.cells.iter().all(|c| c.charge == 0 || c.el == Element::Metal));
        peak = now.max(1);
    }
    assert!(w.cells.iter().all(|c| c.charge == 0));
}

#[test]
fn heat_spreads_without_new_extremes() {
    let mut w = World::new();
    for x in 100..110 {
        w.spawn(x, 50, Element::Stone, 0);
    }
    w.temp[idx(105, 50)] = 400_000;
    w.temp[idx(20, 20)] = -10_000;
    for _ in 0..5 {
        w.step();
        assert!(w.temp.iter().all(|&t| (-10_000..=400_000).contains(&t)));
    }
    assert!(w.temp[idx(106, 50)] > AMBIENT);
}

#[test]
fn smoke_rises() {
    let mut w = World::new();
    w.spawn(30, 30, Element::Smoke, 100);
    w.step();
    assert_eq!(w.el_at(30, 30), Element::Empty);
    assert_eq!(w.el_at(30, 29), Element::Smoke);
    assert_eq!(w.cells[idx(30, 29)].life, 99);
}

#[test]
fn world_readers() {
    let mut w = World::new();
    assert_eq!(w.particle_count(), 0);
    w.spawn(3, 4, Element::Lava, 0);
    w.spawn(5, 4, Element::Metal, 0);
    w.zap(5, 4, 0);
    assert_eq!(w.particle_count(), 2);
    assert_eq!(w.temp_at(3, 4), 1_200_000);
    assert_eq!(w.temp_at(-1, 4), AMBIENT);
    assert_eq!(w.charge_at(5, 4), 18);
    assert_eq!(w.charge_at(3, 4), 0);
    assert_eq!(w.charge_at(5, 400), 0);
}
