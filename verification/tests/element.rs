use sand::element::{
    conductive, dissolvable, el_from_index, el_index, is_creature, is_fluid, menu_elements,
    natural_temp, palette, props, Cat, Element, Menu, ELEMENT_COUNT,
};

#[test]
fn index_round_trip() {
    for i in 0..ELEMENT_COUNT as u8 {
        assert_eq!(el_index(el_from_index(i)), i);
    }
    assert_eq!(el_index(Element::Empty), 0);
    assert_eq!(el_index(Element::Sand), 8);
    assert_eq!(el_index(Element::Cooler), 53);
    assert_eq!(el_from_index(17), Element::Water);
    assert_eq!(el_from_index(54), Element::Empty);
    assert_eq!(el_from_index(255), Element::Empty);
}

#[test]
fn props_lookup() {
    let p = props(Element::Water);
    assert_eq!(p.name, "Water");
    assert_eq!(p.cat, Cat::Liquid);
    assert_eq!(p.menu, Menu::Liquids);
    assert_eq!(p.density, 10);
    assert_eq!(p.color, (40, 110, 200));
    assert_eq!(p.var, 16);
    assert_eq!(props(Element::Empty).name, "Eraser");
    assert_eq!(props(Element::Fire).density, -10);
    assert_eq!(props(Element::SaltWater).menu, Menu::Hidden);
}

#[test]
fn gases_rise_and_oil_floats_by_density() {
    assert!(props(Element::Oil).density < props(Element::Water).density);
    assert!(props(Element::Sand).density > props(Element::Water).density);
    assert!(props(Element::Steam).density < 0);
}

#[test]
fn menus_in_catalogue_order() {
    assert_eq!(
        menu_elements(Menu::Gases),
        vec![Element::Methane, Element::Fire]
    );
    // emergent materials are not painted directly
    assert_eq!(
        menu_elements(Menu::Hidden),
        vec![
            Element::Ash,
            Element::SaltWater,
            Element::Steam,
            Element::Smoke,
            Element::Toxic,
            Element::Ember,
            Element::Bullet
        ]
    );
    let total: usize = [
        Menu::Solids,
        Menu::Powders,
        Menu::Liquids,
        Menu::Gases,
        Menu::Life,
        Menu::Weapons,
        Menu::Tools,
        Menu::Hidden,
    ]
    .iter()
    .map(|&m| menu_elements(m).len())
    .sum();
    assert_eq!(total, ELEMENT_COUNT);
}

#[test]
fn element_classes() {
    assert!(is_fluid(Element::Water));
    assert!(is_fluid(Element::Smoke));
    assert!(!is_fluid(Element::Sand));
    assert!(conductive(Element::Metal));
    assert!(conductive(Element::SaltWater));
    assert!(!conductive(Element::Wood));
    assert!(dissolvable(Element::Bomb));
    assert!(!dissolvable(Element::Wall));
    assert!(!dissolvable(Element::Glass));
    assert!(is_creature(Element::Ant));
    assert!(!is_creature(Element::Plant));
}

#[test]
fn natural_temperatures() {
    assert_eq!(natural_temp(Element::Lava), Some(1_200_000));
    assert_eq!(natural_temp(Element::Ice), Some(-18_000));
    assert_eq!(natural_temp(Element::Sand), None);
}

#[test]
fn palette_lists_visible_menus_in_order() {
    let p = palette();
    assert_eq!(p[0], Element::Wall);
    assert!(!p.contains(&Element::Steam));
    assert!(!p.contains(&Element::Ember));
    assert!(p.contains(&Element::Fire));
    let hidden = menu_elements(Menu::Hidden).len();
    assert_eq!(p.len() + hidden, ELEMENT_COUNT);
    assert!(p.contains(&Element::Empty));
}
