use sand::demo::setup_demo;
use sand::element::Element;
use sand::skeleton::{particle_part, Part, HEAD, L_FOOT, N, PELVIS, R_HAND};
use sand::ui::{stroke_points, PanelTarget, Ui};
use sand::world::{idx, World};

#[test]
fn ui_starts_with_sand() {
    let ui = Ui::new();
    assert_eq!(ui.selected, Element::Sand);
    assert_eq!(ui.brush, 4);
    assert!(!ui.paused);
    assert!(!ui.spark_tool);
}

#[test]
fn panel_clicks_select() {
    let mut ui = Ui::new();
    assert!(ui.click_panel(PanelTarget::Spark));
    assert!(ui.spark_tool);
    assert_eq!(ui.selected, Element::Sand);
    assert!(ui.click_panel(PanelTarget::Swatch(Element::Lava)));
    assert!(!ui.spark_tool);
    assert_eq!(ui.selected, Element::Lava);
    assert!(ui.click_panel(PanelTarget::Elsewhere));
    assert_eq!(ui.selected, Element::Lava);
}

#[test]
fn brush_stays_in_range() {
    let mut ui = Ui::new();
    ui.adjust_brush(true);
    assert_eq!(ui.brush, 5);
    ui.brush = 40;
    ui.adjust_brush(true);
    assert_eq!(ui.brush, 40);
    ui.brush = 0;
    ui.adjust_brush(false);
    assert_eq!(ui.brush, 0);
}

#[test]
fn stroke_interpolates() {
    assert_eq!(stroke_points(5, 5, 5, 5), vec![(5, 5), (5, 5)]);
    assert_eq!(stroke_points(0, 0, 4, 2), vec![(0, 0), (1, 0), (2, 1), (3, 1), (4, 2)]);
    // truncation toward zero going left/up
    assert_eq!(stroke_points(0, 0, -3, -1), vec![(0, 0), (-1, 0), (-2, 0), (-3, -1)]);
}

#[test]
fn skeleton_regions() {
    assert_eq!(particle_part(HEAD), Part::Head);
    assert_eq!(particle_part(PELVIS), Part::Torso);
    assert_eq!(particle_part(R_HAND), Part::ArmR);
    assert_eq!(particle_part(L_FOOT), Part::LegL);
    assert_eq!(particle_part(99), Part::LegR);
    let parts = [Part::Head, Part::Torso, Part::ArmL, Part::ArmR, Part::LegL, Part::LegR];
    let mut total = 0;
    for (k, p) in parts.iter().enumerate() {
        assert_eq!(p.idx(), k);
        for &i in p.particles() {
            assert_eq!(particle_part(i), *p);
        }
        total += p.particles().len();
    }
    assert_eq!(total, N);
}

#[test]
fn demo_scene_layout() {
    let mut w = World::new();
    setup_demo(&mut w);
    assert_eq!(w.el_at(0, 199), Element::Wall);
    assert_eq!(w.el_at(319, 198), Element::Wall);
    assert_eq!(w.el_at(18, 180), Element::Stone);
    assert_eq!(w.el_at(40, 190), Element::Water);
    assert_eq!(w.el_at(40, 179), Element::Empty);
    assert_eq!(w.el_at(250, 190), Element::Lava);
    assert_eq!(w.temp[idx(250, 190)], 1_200_000);
    assert_eq!(w.el_at(90, 190), Element::Metal);
    assert_eq!(w.el_at(91, 184), Element::Gun);
    assert_eq!(w.el_at(170, 196), Element::Fire);
    assert_eq!(w.el_at(170, 197), Element::Wood);
    assert_eq!(w.temp[idx(170, 197)], 720_000);
    assert_eq!(w.el_at(165, 197), Element::Wood);
    assert_eq!(w.el_at(170, 198), Element::Wall);
    // written cells are fresh: no charge, marked as moved, campfire flames alive
    let water = w.cells[idx(40, 190)];
    assert_eq!((water.life, water.charge, water.moved), (0, 0, true));
    let flame = w.cells[idx(170, 196)];
    assert!((40..90).contains(&flame.life) && flame.charge == 0 && flame.moved);
    assert!(!w.cells[idx(40, 100)].moved);
}

#[test]
fn brush_moves_only_need_room_on_their_side() {
    let mut ui = Ui::new();
    ui.brush = i32::MIN;
    ui.adjust_brush(true);
    assert_eq!(ui.brush, 0);
    ui.brush = i32::MAX;
    ui.adjust_brush(false);
    assert_eq!(ui.brush, 40);
}

#[test]
fn long_strokes_interpolate() {
    let pts = stroke_points(0, 0, 30000, 0);
    assert_eq!(pts.len(), 30001);
    assert_eq!(pts[15000], (15000, 0));
    assert_eq!(pts[30000], (30000, 0));
    let pts = stroke_points(-40000, 5, -40003, 5);
    assert_eq!(pts, vec![(-40000, 5), (-40001, 5), (-40002, 5), (-40003, 5)]);
}
