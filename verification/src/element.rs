//! The element catalogue: every material the sandbox knows about, and the
//! static data (colour, density, category, menu) that drives the simulation.

use vstd::prelude::*;

verus! {

/// Every material a cell can hold.
#[derive(Clone, Copy, PartialEq, Eq, Debug, Structural)]
pub enum Element {
    Empty,
    Wall,
    Stone,
    Brick,
    Wood,
    Metal,
    Glass,
    Ice,
    Sand,
    Dirt,
    Salt,
    Coal,
    Gunpowder,
    Snow,
    Ash,
    Seed,
    Concrete,
    Water,
    SaltWater,
    Oil,
    Gasoline,
    Acid,
    Lava,
    Blood,
    Mercury,
    Napalm,
    Steam,
    Smoke,
    Toxic,
    Methane,
    Fire,
    Plant,
    Ant,
    Person,
    Zombie,
    Fish,
    Virus,
    Ember,
    Bomb,
    Tnt,
    C4,
    Nuke,
    Mine,
    Grenade,
    Fireworks,
    Missile,
    Gun,
    Bullet,
    Laser,
    WaterSource,
    Cloner,
    Void,
    Heater,
    Cooler,
}

/// Broad movement class of an element.
#[derive(Clone, Copy, PartialEq, Eq, Debug, Structural)]
pub enum Cat {
    Empty,
    /// does not fall on its own
    Solid,
    /// falls and piles
    Powder,
    /// falls and spreads
    Liquid,
    /// rises and disperses
    Gas,
    /// bespoke behaviour
    Life,
}

/// The palette submenu an element appears under (`Hidden`: emergent only).
#[derive(Clone, Copy, PartialEq, Eq, Debug, Structural)]
pub enum Menu {
    Solids,
    Powders,
    Liquids,
    Gases,
    Life,
    Weapons,
    Tools,
    Hidden,
}

/// Static properties of an element.
pub struct Props {
    pub name: &'static str,
    pub cat: Cat,
    pub menu: Menu,
    /// Higher sinks. Gases are negative so they rise. Used for displacement.
    pub density: i16,
    pub color: (u8, u8, u8),
    /// Per-cell colour jitter amplitude.
    pub var: u8,
}

/// Number of distinct elements.
pub const ELEMENT_COUNT: usize = 54;

/// The property table.
pub open spec fn spec_props(el: Element) -> Props {
    match el {
        Element::Empty => Props { name: "Eraser", cat: Cat::Empty, menu: Menu::Tools, density: 0, color: (12, 12, 16), var: 0 },
        Element::Wall => Props { name: "Wall", cat: Cat::Solid, menu: Menu::Solids, density: 9000, color: (80, 80, 92), var: 6 },
        Element::Stone => Props { name: "Stone", cat: Cat::Solid, menu: Menu::Solids, density: 9000, color: (110, 105, 100), var: 14 },
        Element::Brick => Props { name: "Brick", cat: Cat::Solid, menu: Menu::Solids, density: 9000, color: (150, 70, 55), var: 12 },
        Element::Wood => Props { name: "Wood", cat: Cat::Solid, menu: Menu::Solids, density: 9000, color: (120, 80, 40), var: 12 },
        Element::Metal => Props { name: "Metal", cat: Cat::Solid, menu: Menu::Solids, density: 9000, color: (150, 155, 165), var: 10 },
        Element::Glass => Props { name: "Glass", cat: Cat::Solid, menu: Menu::Solids, density: 9000, color: (170, 200, 210), var: 8 },
        Element::Ice => Props { name: "Ice", cat: Cat::Solid, menu: Menu::Solids, density: 9000, color: (160, 200, 235), var: 12 },
        Element::Sand => Props { name: "Sand", cat: Cat::Powder, menu: Menu::Powders, density: 60, color: (200, 180, 90), var: 18 },
        Element::Dirt => Props { name: "Dirt", cat: Cat::Powder, menu: Menu::Powders, density: 62, color: (95, 65, 40), var: 16 },
        Element::Salt => Props { name: "Salt", cat: Cat::Powder, menu: Menu::Powders, density: 55, color: (230, 230, 235), var: 12 },
        Element::Coal => Props { name: "Coal", cat: Cat::Powder, menu: Menu::Powders, density: 52, color: (40, 40, 44), var: 10 },
        Element::Gunpowder => Props { name: "Gunpowder", cat: Cat::Powder, menu: Menu::Powders, density: 58, color: (60, 60, 66), var: 10 },
        Element::Snow => Props { name: "Snow", cat: Cat::Powder, menu: Menu::Powders, density: 20, color: (235, 240, 250), var: 8 },
        Element::Ash => Props { name: "Ash", cat: Cat::Powder, menu: Menu::Hidden, density: 30, color: (90, 88, 86), var: 16 },
        Element::Seed => Props { name: "Seed", cat: Cat::Powder, menu: Menu::Powders, density: 40, color: (110, 150, 60), var: 14 },
        Element::Concrete => Props { name: "Concrete", cat: Cat::Powder, menu: Menu::Powders, density: 80, color: (130, 130, 135), var: 14 },
        Element::Water => Props { name: "Water", cat: Cat::Liquid, menu: Menu::Liquids, density: 10, color: (40, 110, 200), var: 16 },
        Element::SaltWater => Props { name: "Saltwater", cat: Cat::Liquid, menu: Menu::Hidden, density: 12, color: (60, 130, 190), var: 16 },
        Element::Oil => Props { name: "Oil", cat: Cat::Liquid, menu: Menu::Liquids, density: 6, color: (90, 70, 50), var: 12 },
        Element::Gasoline => Props { name: "Gasoline", cat: Cat::Liquid, menu: Menu::Liquids, density: 5, color: (200, 185, 80), var: 16 },
        Element::Acid => Props { name: "Acid", cat: Cat::Liquid, menu: Menu::Liquids, density: 11, color: (120, 220, 60), var: 20 },
        Element::Lava => Props { name: "Lava", cat: Cat::Liquid, menu: Menu::Liquids, density: 40, color: (210, 80, 20), var: 30 },
        Element::Blood => Props { name: "Blood", cat: Cat::Liquid, menu: Menu::Liquids, density: 11, color: (130, 20, 20), var: 14 },
        Element::Mercury => Props { name: "Mercury", cat: Cat::Liquid, menu: Menu::Liquids, density: 100, color: (190, 190, 200), var: 20 },
        Element::Napalm => Props { name: "Napalm", cat: Cat::Liquid, menu: Menu::Liquids, density: 9, color: (220, 120, 40), var: 30 },
        Element::Steam => Props { name: "Steam", cat: Cat::Gas, menu: Menu::Hidden, density: -8 as i16, color: (190, 190, 200), var: 16 },
        Element::Smoke => Props { name: "Smoke", cat: Cat::Gas, menu: Menu::Hidden, density: -5 as i16, color: (60, 60, 66), var: 20 },
        Element::Toxic => Props { name: "Toxic Gas", cat: Cat::Gas, menu: Menu::Hidden, density: -4 as i16, color: (130, 190, 90), var: 24 },
        Element::Methane => Props { name: "Methane", cat: Cat::Gas, menu: Menu::Gases, density: -7 as i16, color: (170, 200, 150), var: 18 },
        Element::Fire => Props { name: "Fire", cat: Cat::Gas, menu: Menu::Gases, density: -10 as i16, color: (255, 120, 30), var: 30 },
        Element::Plant => Props { name: "Plant", cat: Cat::Life, menu: Menu::Life, density: 9000, color: (60, 170, 70), var: 18 },
        Element::Ant => Props { name: "Ant", cat: Cat::Life, menu: Menu::Life, density: 65, color: (130, 40, 40), var: 10 },
        Element::Person => Props { name: "Person", cat: Cat::Life, menu: Menu::Life, density: 64, color: (225, 175, 135), var: 14 },
        Element::Zombie => Props { name: "Zombie", cat: Cat::Life, menu: Menu::Life, density: 64, color: (95, 145, 80), var: 16 },
        Element::Fish => Props { name: "Fish", cat: Cat::Life, menu: Menu::Life, density: 13, color: (110, 140, 205), var: 18 },
        Element::Virus => Props { name: "Virus", cat: Cat::Life, menu: Menu::Life, density: 50, color: (205, 60, 200), var: 26 },
        Element::Ember => Props { name: "Ember", cat: Cat::Life, menu: Menu::Hidden, density: 9000, color: (220, 90, 30), var: 30 },
        Element::Bomb => Props { name: "Bomb", cat: Cat::Powder, menu: Menu::Weapons, density: 70, color: (40, 30, 30), var: 6 },
        Element::Tnt => Props { name: "TNT", cat: Cat::Powder, menu: Menu::Weapons, density: 70, color: (185, 45, 45), var: 8 },
        Element::C4 => Props { name: "C4", cat: Cat::Solid, menu: Menu::Weapons, density: 9000, color: (210, 200, 150), var: 8 },
        Element::Nuke => Props { name: "Nuke", cat: Cat::Solid, menu: Menu::Weapons, density: 9000, color: (210, 200, 60), var: 10 },
        Element::Mine => Props { name: "Mine", cat: Cat::Solid, menu: Menu::Weapons, density: 9000, color: (70, 70, 80), var: 8 },
        Element::Grenade => Props { name: "Grenade", cat: Cat::Powder, menu: Menu::Weapons, density: 70, color: (70, 95, 60), var: 8 },
        Element::Fireworks => Props { name: "Fireworks", cat: Cat::Life, menu: Menu::Weapons, density: 0, color: (220, 90, 170), var: 20 },
        Element::Missile => Props { name: "Missile", cat: Cat::Life, menu: Menu::Weapons, density: 0, color: (185, 185, 195), var: 8 },
        Element::Gun => Props { name: "Turret Gun", cat: Cat::Solid, menu: Menu::Weapons, density: 9000, color: (90, 90, 105), var: 8 },
        Element::Bullet => Props { name: "Bullet", cat: Cat::Life, menu: Menu::Hidden, density: 0, color: (255, 240, 180), var: 6 },
        Element::Laser => Props { name: "Laser", cat: Cat::Solid, menu: Menu::Weapons, density: 9000, color: (200, 50, 50), var: 8 },
        Element::WaterSource => Props { name: "Faucet", cat: Cat::Solid, menu: Menu::Tools, density: 9000, color: (60, 90, 150), var: 8 },
        Element::Cloner => Props { name: "Cloner", cat: Cat::Solid, menu: Menu::Tools, density: 9000, color: (180, 150, 220), var: 14 },
        Element::Void => Props { name: "Void", cat: Cat::Solid, menu: Menu::Tools, density: 9000, color: (24, 8, 32), var: 10 },
        Element::Heater => Props { name: "Heater", cat: Cat::Solid, menu: Menu::Tools, density: 9000, color: (200, 90, 60), var: 14 },
        Element::Cooler => Props { name: "Cooler", cat: Cat::Solid, menu: Menu::Tools, density: 9000, color: (90, 160, 210), var: 14 },
    }
}

/// Looks up the static properties of `el`.
pub fn props(el: Element) -> (p: Props)
    ensures
        p == spec_props(el),
{
    match el {
        Element::Empty => Props { name: "Eraser", cat: Cat::Empty, menu: Menu::Tools, density: 0, color: (12, 12, 16), var: 0 },
        Element::Wall => Props { name: "Wall", cat: Cat::Solid, menu: Menu::Solids, density: 9000, color: (80, 80, 92), var: 6 },
        Element::Stone => Props { name: "Stone", cat: Cat::Solid, menu: Menu::Solids, density: 9000, color: (110, 105, 100), var: 14 },
        Element::Brick => Props { name: "Brick", cat: Cat::Solid, menu: Menu::Solids, density: 9000, color: (150, 70, 55), var: 12 },
        Element::Wood => Props { name: "Wood", cat: Cat::Solid, menu: Menu::Solids, density: 9000, color: (120, 80, 40), var: 12 },
        Element::Metal => Props { name: "Metal", cat: Cat::Solid, menu: Menu::Solids, density: 9000, color: (150, 155, 165), var: 10 },
        Element::Glass => Props { name: "Glass", cat: Cat::Solid, menu: Menu::Solids, density: 9000, color: (170, 200, 210), var: 8 },
        Element::Ice => Props { name: "Ice", cat: Cat::Solid, menu: Menu::Solids, density: 9000, color: (160, 200, 235), var: 12 },
        Element::Sand => Props { name: "Sand", cat: Cat::Powder, menu: Menu::Powders, density: 60, color: (200, 180, 90), var: 18 },
        Element::Dirt => Props { name: "Dirt", cat: Cat::Powder, menu: Menu::Powders, density: 62, color: (95, 65, 40), var: 16 },
        Element::Salt => Props { name: "Salt", cat: Cat::Powder, menu: Menu::Powders, density: 55, color: (230, 230, 235), var: 12 },
        Element::Coal => Props { name: "Coal", cat: Cat::Powder, menu: Menu::Powders, density: 52, color: (40, 40, 44), var: 10 },
        Element::Gunpowder => Props { name: "Gunpowder", cat: Cat::Powder, menu: Menu::Powders, density: 58, color: (60, 60, 66), var: 10 },
        Element::Snow => Props { name: "Snow", cat: Cat::Powder, menu: Menu::Powders, density: 20, color: (235, 240, 250), var: 8 },
        Element::Ash => Props { name: "Ash", cat: Cat::Powder, menu: Menu::Hidden, density: 30, color: (90, 88, 86), var: 16 },
        Element::Seed => Props { name: "Seed", cat: Cat::Powder, menu: Menu::Powders, density: 40, color: (110, 150, 60), var: 14 },
        Element::Concrete => Props { name: "Concrete", cat: Cat::Powder, menu: Menu::Powders, density: 80, color: (130, 130, 135), var: 14 },
        Element::Water => Props { name: "Water", cat: Cat::Liquid, menu: Menu::Liquids, density: 10, color: (40, 110, 200), var: 16 },
        Element::SaltWater => Props { name: "Saltwater", cat: Cat::Liquid, menu: Menu::Hidden, density: 12, color: (60, 130, 190), var: 16 },
        Element::Oil => Props { name: "Oil", cat: Cat::Liquid, menu: Menu::Liquids, density: 6, color: (90, 70, 50), var: 12 },
        Element::Gasoline => Props { name: "Gasoline", cat: Cat::Liquid, menu: Menu::Liquids, density: 5, color: (200, 185, 80), var: 16 },
        Element::Acid => Props { name: "Acid", cat: Cat::Liquid, menu: Menu::Liquids, density: 11, color: (120, 220, 60), var: 20 },
        Element::Lava => Props { name: "Lava", cat: Cat::Liquid, menu: Menu::Liquids, density: 40, color: (210, 80, 20), var: 30 },
        Element::Blood => Props { name: "Blood", cat: Cat::Liquid, menu: Menu::Liquids, density: 11, color: (130, 20, 20), var: 14 },
        Element::Mercury => Props { name: "Mercury", cat: Cat::Liquid, menu: Menu::Liquids, density: 100, color: (190, 190, 200), var: 20 },
        Element::Napalm => Props { name: "Napalm", cat: Cat::Liquid, menu: Menu::Liquids, density: 9, color: (220, 120, 40), var: 30 },
        Element::Steam => Props { name: "Steam", cat: Cat::Gas, menu: Menu::Hidden, density: -8, color: (190, 190, 200), var: 16 },
        Element::Smoke => Props { name: "Smoke", cat: Cat::Gas, menu: Menu::Hidden, density: -5, color: (60, 60, 66), var: 20 },
        Element::Toxic => Props { name: "Toxic Gas", cat: Cat::Gas, menu: Menu::Hidden, density: -4, color: (130, 190, 90), var: 24 },
        Element::Methane => Props { name: "Methane", cat: Cat::Gas, menu: Menu::Gases, density: -7, color: (170, 200, 150), var: 18 },
        Element::Fire => Props { name: "Fire", cat: Cat::Gas, menu: Menu::Gases, density: -10, color: (255, 120, 30), var: 30 },
        Element::Plant => Props { name: "Plant", cat: Cat::Life, menu: Menu::Life, density: 9000, color: (60, 170, 70), var: 18 },
        Element::Ant => Props { name: "Ant", cat: Cat::Life, menu: Menu::Life, density: 65, color: (130, 40, 40), var: 10 },
        Element::Person => Props { name: "Person", cat: Cat::Life, menu: Menu::Life, density: 64, color: (225, 175, 135), var: 14 },
        Element::Zombie => Props { name: "Zombie", cat: Cat::Life, menu: Menu::Life, density: 64, color: (95, 145, 80), var: 16 },
        Element::Fish => Props { name: "Fish", cat: Cat::Life, menu: Menu::Life, density: 13, color: (110, 140, 205), var: 18 },
        Element::Virus => Props { name: "Virus", cat: Cat::Life, menu: Menu::Life, density: 50, color: (205, 60, 200), var: 26 },
        Element::Ember => Props { name: "Ember", cat: Cat::Life, menu: Menu::Hidden, density: 9000, color: (220, 90, 30), var: 30 },
        Element::Bomb => Props { name: "Bomb", cat: Cat::Powder, menu: Menu::Weapons, density: 70, color: (40, 30, 30), var: 6 },
        Element::Tnt => Props { name: "TNT", cat: Cat::Powder, menu: Menu::Weapons, density: 70, color: (185, 45, 45), var: 8 },
        Element::C4 => Props { name: "C4", cat: Cat::Solid, menu: Menu::Weapons, density: 9000, color: (210, 200, 150), var: 8 },
        Element::Nuke => Props { name: "Nuke", cat: Cat::Solid, menu: Menu::Weapons, density: 9000, color: (210, 200, 60), var: 10 },
        Element::Mine => Props { name: "Mine", cat: Cat::Solid, menu: Menu::Weapons, density: 9000, color: (70, 70, 80), var: 8 },
        Element::Grenade => Props { name: "Grenade", cat: Cat::Powder, menu: Menu::Weapons, density: 70, color: (70, 95, 60), var: 8 },
        Element::Fireworks => Props { name: "Fireworks", cat: Cat::Life, menu: Menu::Weapons, density: 0, color: (220, 90, 170), var: 20 },
        Element::Missile => Props { name: "Missile", cat: Cat::Life, menu: Menu::Weapons, density: 0, color: (185, 185, 195), var: 8 },
        Element::Gun => Props { name: "Turret Gun", cat: Cat::Solid, menu: Menu::Weapons, density: 9000, color: (90, 90, 105), var: 8 },
        Element::Bullet => Props { name: "Bullet", cat: Cat::Life, menu: Menu::Hidden, density: 0, color: (255, 240, 180), var: 6 },
        Element::Laser => Props { name: "Laser", cat: Cat::Solid, menu: Menu::Weapons, density: 9000, color: (200, 50, 50), var: 8 },
        Element::WaterSource => Props { name: "Faucet", cat: Cat::Solid, menu: Menu::Tools, density: 9000, color: (60, 90, 150), var: 8 },
        Element::Cloner => Props { name: "Cloner", cat: Cat::Solid, menu: Menu::Tools, density: 9000, color: (180, 150, 220), var: 14 },
        Element::Void => Props { name: "Void", cat: Cat::Solid, menu: Menu::Tools, density: 9000, color: (24, 8, 32), var: 10 },
        Element::Heater => Props { name: "Heater", cat: Cat::Solid, menu: Menu::Tools, density: 9000, color: (200, 90, 60), var: 14 },
        Element::Cooler => Props { name: "Cooler", cat: Cat::Solid, menu: Menu::Tools, density: 9000, color: (90, 160, 210), var: 14 },
    }
}

/// The element listed at position `i` of the catalogue order (`Empty` past the end).
pub open spec fn element_at(i: int) -> Element {
    if i == 0 {
        Element::Empty
    } else if i == 1 {
        Element::Wall
    } else if i == 2 {
        Element::Stone
    } else if i == 3 {
        Element::Brick
    } else if i == 4 {
        Element::Wood
    } else if i == 5 {
        Element::Metal
    } else if i == 6 {
        Element::Glass
    } else if i == 7 {
        Element::Ice
    } else if i == 8 {
        Element::Sand
    } else if i == 9 {
        Element::Dirt
    } else if i == 10 {
        Element::Salt
    } else if i == 11 {
        Element::Coal
    } else if i == 12 {
        Element::Gunpowder
    } else if i == 13 {
        Element::Snow
    } else if i == 14 {
        Element::Ash
    } else if i == 15 {
        Element::Seed
    } else if i == 16 {
        Element::Concrete
    } else if i == 17 {
        Element::Water
    } else if i == 18 {
        Element::SaltWater
    } else if i == 19 {
        Element::Oil
    } else if i == 20 {
        Element::Gasoline
    } else if i == 21 {
        Element::Acid
    } else if i == 22 {
        Element::Lava
    } else if i == 23 {
        Element::Blood
    } else if i == 24 {
        Element::Mercury
    } else if i == 25 {
        Element::Napalm
    } else if i == 26 {
        Element::Steam
    } else if i == 27 {
        Element::Smoke
    } else if i == 28 {
        Element::Toxic
    } else if i == 29 {
        Element::Methane
    } else if i == 30 {
        Element::Fire
    } else if i == 31 {
        Element::Plant
    } else if i == 32 {
        Element::Ant
    } else if i == 33 {
        Element::Person
    } else if i == 34 {
        Element::Zombie
    } else if i == 35 {
        Element::Fish
    } else if i == 36 {
        Element::Virus
    } else if i == 37 {
        Element::Ember
    } else if i == 38 {
        Element::Bomb
    } else if i == 39 {
        Element::Tnt
    } else if i == 40 {
        Element::C4
    } else if i == 41 {
        Element::Nuke
    } else if i == 42 {
        Element::Mine
    } else if i == 43 {
        Element::Grenade
    } else if i == 44 {
        Element::Fireworks
    } else if i == 45 {
        Element::Missile
    } else if i == 46 {
        Element::Gun
    } else if i == 47 {
        Element::Bullet
    } else if i == 48 {
        Element::Laser
    } else if i == 49 {
        Element::WaterSource
    } else if i == 50 {
        Element::Cloner
    } else if i == 51 {
        Element::Void
    } else if i == 52 {
        Element::Heater
    } else if i == 53 {
        Element::Cooler
    } else {
        Element::Empty
    }
}

/// Every element in catalogue order.
pub open spec fn all_elements() -> Seq<Element> {
    Seq::new(ELEMENT_COUNT as nat, |i: int| element_at(i))
}

/// Position of an element in catalogue order.
pub open spec fn ordinal(el: Element) -> int {
    match el {
        Element::Empty => 0,
        Element::Wall => 1,
        Element::Stone => 2,
        Element::Brick => 3,
        Element::Wood => 4,
        Element::Metal => 5,
        Element::Glass => 6,
        Element::Ice => 7,
        Element::Sand => 8,
        Element::Dirt => 9,
        Element::Salt => 10,
        Element::Coal => 11,
        Element::Gunpowder => 12,
        Element::Snow => 13,
        Element::Ash => 14,
        Element::Seed => 15,
        Element::Concrete => 16,
        Element::Water => 17,
        Element::SaltWater => 18,
        Element::Oil => 19,
        Element::Gasoline => 20,
        Element::Acid => 21,
        Element::Lava => 22,
        Element::Blood => 23,
        Element::Mercury => 24,
        Element::Napalm => 25,
        Element::Steam => 26,
        Element::Smoke => 27,
        Element::Toxic => 28,
        Element::Methane => 29,
        Element::Fire => 30,
        Element::Plant => 31,
        Element::Ant => 32,
        Element::Person => 33,
        Element::Zombie => 34,
        Element::Fish => 35,
        Element::Virus => 36,
        Element::Ember => 37,
        Element::Bomb => 38,
        Element::Tnt => 39,
        Element::C4 => 40,
        Element::Nuke => 41,
        Element::Mine => 42,
        Element::Grenade => 43,
        Element::Fireworks => 44,
        Element::Missile => 45,
        Element::Gun => 46,
        Element::Bullet => 47,
        Element::Laser => 48,
        Element::WaterSource => 49,
        Element::Cloner => 50,
        Element::Void => 51,
        Element::Heater => 52,
        Element::Cooler => 53,
    }
}

/// Every element appears in the catalogue, at position `ordinal`, and no
/// position holds the same element as another: the catalogue lists each
/// element exactly once.
pub proof fn lemma_catalogue_lists_each_once()
    ensures
        forall|el: Element|
            0 <= #[trigger] ordinal(el) < ELEMENT_COUNT && all_elements()[ordinal(el)] == el,
        forall|i: int| 0 <= i < ELEMENT_COUNT ==> #[trigger] ordinal(all_elements()[i]) == i,
        forall|i: int, j: int|
            0 <= i < ELEMENT_COUNT && 0 <= j < ELEMENT_COUNT && i != j ==> all_elements()[i]
                != all_elements()[j],
{
    assert forall|i: int| 0 <= i < ELEMENT_COUNT implies #[trigger] ordinal(all_elements()[i]) == i by {
        assert(all_elements()[i] == element_at(i));
    }
    assert forall|i: int, j: int|
        0 <= i < ELEMENT_COUNT && 0 <= j < ELEMENT_COUNT && i != j implies all_elements()[i]
            != all_elements()[j] by {
        assert(ordinal(all_elements()[i]) == i);
        assert(ordinal(all_elements()[j]) == j);
    }
}

/// Remembering an element by its catalogue position gives it back, and every
/// position in range is the position of the element stored there.
pub proof fn lemma_index_round_trip(el: Element, i: int)
    ensures
        element_at(ordinal(el)) == el,
        0 <= i < ELEMENT_COUNT ==> ordinal(element_at(i)) == i,
{
    lemma_catalogue_lists_each_once();
    assert(all_elements()[ordinal(el)] == el);
    if 0 <= i < ELEMENT_COUNT {
        assert(ordinal(all_elements()[i]) == i);
    }
}

/// Every element is listed under exactly its own submenu: it appears in the
/// list for `m` exactly when its menu is `m`.
pub proof fn lemma_menu_membership(m: Menu, el: Element)
    ensures
        all_elements().filter(|e: Element| spec_props(e).menu == m).contains(el) <==> spec_props(
            el,
        ).menu == m,
{
    let pred = |e: Element| spec_props(e).menu == m;
    lemma_catalogue_lists_each_once();
    let k = ordinal(el);
    assert(all_elements()[k] == el);
    if spec_props(el).menu == m {
        all_elements().lemma_filter_contains(pred, k);
    }
    if all_elements().filter(pred).contains(el) {
        let j = choose|j: int| 0 <= j < all_elements().filter(pred).len() && all_elements().filter(pred)[j] == el;
        all_elements().lemma_filter_pred(pred, j);
    }
}

/// The element at catalogue position `i`, or `Empty` past the end.
pub fn el_from_index(i: u8) -> (el: Element)
    ensures
        el == element_at(i as int),
        (i as int) < ELEMENT_COUNT ==> el == all_elements()[i as int],
        (i as int) >= ELEMENT_COUNT ==> el == Element::Empty,
{
    match i {
        0 => Element::Empty,
        1 => Element::Wall,
        2 => Element::Stone,
        3 => Element::Brick,
        4 => Element::Wood,
        5 => Element::Metal,
        6 => Element::Glass,
        7 => Element::Ice,
        8 => Element::Sand,
        9 => Element::Dirt,
        10 => Element::Salt,
        11 => Element::Coal,
        12 => Element::Gunpowder,
        13 => Element::Snow,
        14 => Element::Ash,
        15 => Element::Seed,
        16 => Element::Concrete,
        17 => Element::Water,
        18 => Element::SaltWater,
        19 => Element::Oil,
        20 => Element::Gasoline,
        21 => Element::Acid,
        22 => Element::Lava,
        23 => Element::Blood,
        24 => Element::Mercury,
        25 => Element::Napalm,
        26 => Element::Steam,
        27 => Element::Smoke,
        28 => Element::Toxic,
        29 => Element::Methane,
        30 => Element::Fire,
        31 => Element::Plant,
        32 => Element::Ant,
        33 => Element::Person,
        34 => Element::Zombie,
        35 => Element::Fish,
        36 => Element::Virus,
        37 => Element::Ember,
        38 => Element::Bomb,
        39 => Element::Tnt,
        40 => Element::C4,
        41 => Element::Nuke,
        42 => Element::Mine,
        43 => Element::Grenade,
        44 => Element::Fireworks,
        45 => Element::Missile,
        46 => Element::Gun,
        47 => Element::Bullet,
        48 => Element::Laser,
        49 => Element::WaterSource,
        50 => Element::Cloner,
        51 => Element::Void,
        52 => Element::Heater,
        53 => Element::Cooler,
        _ => Element::Empty,
    }
}

/// Catalogue position of an element (the Cloner remembers a material by it).
pub fn el_index(el: Element) -> (i: u8)
    ensures
        (i as int) < ELEMENT_COUNT,
        all_elements()[i as int] == el,
        i as int == ordinal(el),
{
    proof {
        lemma_catalogue_lists_each_once();
    }
    let mut k: u8 = 0;
    while (k as usize) < ELEMENT_COUNT
        invariant
            0 <= k <= ELEMENT_COUNT,
            forall|j: int| 0 <= j < k ==> all_elements()[j] != el,
        decreases ELEMENT_COUNT - k,
    {
        if el_from_index(k) == el {
            return k;
        }
        k = k + 1;
    }
    assert(all_elements()[ordinal(el)] == el);
    assert(false);
    0
}

/// Does `el` flow (liquid or gas)?
pub open spec fn spec_is_fluid(el: Element) -> bool {
    spec_props(el).cat == Cat::Liquid || spec_props(el).cat == Cat::Gas
}

/// Does `el` conduct electrical charge?
pub open spec fn spec_conductive(el: Element) -> bool {
    el == Element::Metal || el == Element::Water || el == Element::SaltWater || el
        == Element::Mercury
}

/// Can `el` be eaten away by acid?
pub open spec fn spec_dissolvable(el: Element) -> bool {
    ||| el == Element::Stone
    ||| el == Element::Brick
    ||| el == Element::Wood
    ||| el == Element::Metal
    ||| el == Element::Sand
    ||| el == Element::Dirt
    ||| el == Element::Salt
    ||| el == Element::Coal
    ||| el == Element::Gunpowder
    ||| el == Element::Snow
    ||| el == Element::Ash
    ||| el == Element::Seed
    ||| el == Element::Concrete
    ||| el == Element::Plant
    ||| el == Element::Ice
    ||| el == Element::Bomb
}

/// Is `el` a living thing that bullets, mines and zombies care about?
pub open spec fn spec_is_creature(el: Element) -> bool {
    el == Element::Person || el == Element::Zombie || el == Element::Fish || el == Element::Ant
}

/// Elements shown under a given submenu tab, in catalogue order.
pub fn menu_elements(m: Menu) -> (v: Vec<Element>)
    ensures
        v@ == all_elements().filter(|e: Element| spec_props(e).menu == m),
{
    let ghost pred = |e: Element| spec_props(e).menu == m;
    let mut v: Vec<Element> = Vec::new();
    let mut k: u8 = 0;
    while (k as usize) < ELEMENT_COUNT
        invariant
            0 <= k <= ELEMENT_COUNT,
            v@ == all_elements().take(k as int).filter(pred),
            pred == (|e: Element| spec_props(e).menu == m),
        decreases ELEMENT_COUNT - k,
    {
        let e = el_from_index(k);
        let ghost prefix = all_elements().take(k as int);
        proof {
            assert(all_elements().take(k as int + 1) =~= prefix.push(e));
            prefix.lemma_filter_push(e, pred);
        }
        let em = props(e).menu;
        if em == m {
            v.push(e);
        }
        k = k + 1;
    }
    assert(all_elements().take(ELEMENT_COUNT as int) =~= all_elements());
    v
}

/// Does `el` flow (liquid or gas)?
#[verifier::when_used_as_spec(spec_is_fluid)]
pub fn is_fluid(el: Element) -> (r: bool)
    ensures
        r == spec_is_fluid(el),
{
    let c = props(el).cat;
    matches!(c, Cat::Liquid | Cat::Gas)
}

/// Conducts electrical charge.
#[verifier::when_used_as_spec(spec_conductive)]
pub fn conductive(el: Element) -> (r: bool)
    ensures
        r == spec_conductive(el),
{
    matches!(el, Element::Metal | Element::Water | Element::SaltWater | Element::Mercury)
}

/// Can be eaten away by acid.
#[verifier::when_used_as_spec(spec_dissolvable)]
pub fn dissolvable(el: Element) -> (r: bool)
    ensures
        r == spec_dissolvable(el),
{
    matches!(
        el,
        Element::Stone | Element::Brick | Element::Wood | Element::Metal | Element::Sand
            | Element::Dirt | Element::Salt | Element::Coal | Element::Gunpowder | Element::Snow
            | Element::Ash | Element::Seed | Element::Concrete | Element::Plant | Element::Ice
            | Element::Bomb
    )
}

/// Living things that bullets, mines and zombies care about.
#[verifier::when_used_as_spec(spec_is_creature)]
pub fn is_creature(el: Element) -> (r: bool)
    ensures
        r == spec_is_creature(el),
{
    matches!(el, Element::Person | Element::Zombie | Element::Fish | Element::Ant)
}

/// Temperatures are fixed-point: thousandths of a degree Celsius.
/// The characteristic temperature a freshly placed cell of `el` starts at;
/// `None` means the cell keeps the local temperature.
pub open spec fn spec_natural_temp(el: Element) -> Option<i32> {
    match el {
        Element::Lava => Some(1_200_000i32),
        Element::Fire => Some(720_000i32),
        Element::Ember => Some(540_000i32),
        Element::Napalm => Some(500_000i32),
        Element::Ice => Some(-18_000i32),
        Element::Snow => Some(-10_000i32),
        Element::Steam => Some(105_000i32),
        _ => None,
    }
}

/// The temperature (thousandths of a degree Celsius) a freshly placed cell of
/// `el` starts at, if it has a characteristic one.
#[verifier::when_used_as_spec(spec_natural_temp)]
pub fn natural_temp(el: Element) -> (t: Option<i32>)
    ensures
        t == spec_natural_temp(el),
{
    match el {
        Element::Lava => Some(1_200_000),
        Element::Fire => Some(720_000),
        Element::Ember => Some(540_000),
        Element::Napalm => Some(500_000),
        Element::Ice => Some(-18_000),
        Element::Snow => Some(-10_000),
        Element::Steam => Some(105_000),
        _ => None,
    }
}

/// The elements of submenu `m`, in catalogue order.
pub open spec fn menu_list(m: Menu) -> Seq<Element> {
    all_elements().filter(|e: Element| spec_props(e).menu == m)
}

/// The paintable palette: the visible submenus (solids, powders, liquids,
/// gases, life, weapons, tools) one after another.
pub open spec fn palette_list() -> Seq<Element> {
    menu_list(Menu::Solids) + menu_list(Menu::Powders) + menu_list(Menu::Liquids) + menu_list(
        Menu::Gases,
    ) + menu_list(Menu::Life) + menu_list(Menu::Weapons) + menu_list(Menu::Tools)
}

/// The paintable palette, in order.
pub fn palette() -> (v: Vec<Element>)
    ensures
        v@ == palette_list(),
{
    let mut v = menu_elements(Menu::Solids);
    let mut w = menu_elements(Menu::Powders);
    v.append(&mut w);
    let mut w = menu_elements(Menu::Liquids);
    v.append(&mut w);
    let mut w = menu_elements(Menu::Gases);
    v.append(&mut w);
    let mut w = menu_elements(Menu::Life);
    v.append(&mut w);
    let mut w = menu_elements(Menu::Weapons);
    v.append(&mut w);
    let mut w = menu_elements(Menu::Tools);
    v.append(&mut w);
    v
}

} // verus!
