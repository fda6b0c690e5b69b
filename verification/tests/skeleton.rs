use sand::element::Element;
use sand::skeleton::{
    particle_part, Part, Skeleton, CHEST, HEAD, L_ELBOW, L_FOOT, L_HAND, L_KNEE, L_SHOULDER, NECK, PELVIS,
    R_KNEE, R_SHOULDER,
};
use sand::world::{idx, World, W};

fn broken_pairs(s: &Skeleton) -> Vec<(usize, usize)> {
    s.links.iter().filter(|l| l.broken).map(|l| (l.a, l.b)).collect()
}

#[test]
fn fresh_human_is_whole() {
    let s = Skeleton::human();
    assert_eq!(s.links.len(), 18);
    assert_eq!(s.severed.len(), 6);
    assert!(s.links.iter().all(|l| !l.broken));
    assert!(!s.dead);
    assert_eq!(s.severed_count(), 0);
    assert!(!s.fallen_apart());
    assert!(!s.legless());
    assert_eq!((s.links[0].a, s.links[0].b), (HEAD, NECK));
    assert_eq!((s.links[17].a, s.links[17].b), (L_KNEE, R_KNEE));
}

#[test]
fn severing_an_arm_cuts_only_its_attachments() {
    let mut s = Skeleton::human();
    assert!(s.sever(Part::ArmL));
    assert!(s.is_severed(Part::ArmL));
    assert!(!s.dead);
    // the arm's internal bones stay; the ones leaving it are cut
    assert_eq!(
        broken_pairs(&s),
        vec![(CHEST, L_SHOULDER), (L_SHOULDER, R_SHOULDER), (L_SHOULDER, PELVIS)]
    );
    assert!(s.links.iter().any(|l| (l.a, l.b) == (L_ELBOW, L_HAND) && !l.broken));
}

#[test]
fn severing_twice_changes_nothing() {
    let mut s = Skeleton::human();
    assert!(s.sever(Part::LegL));
    let before = broken_pairs(&s);
    assert!(!s.sever(Part::LegL));
    assert_eq!(broken_pairs(&s), before);
    assert_eq!(s.severed_count(), 1);
}

#[test]
fn losing_the_head_kills() {
    let mut s = Skeleton::human();
    assert!(s.sever(Part::Head));
    assert!(s.dead);
    assert_eq!(broken_pairs(&s), vec![(HEAD, NECK), (HEAD, CHEST)]);
    let mut t = Skeleton::human();
    t.sever(Part::ArmR);
    assert!(!t.dead);
    t.sever(Part::Torso);
    assert!(t.dead);
}

#[test]
fn bodies_fall_apart_at_five_regions() {
    let mut s = Skeleton::human();
    for p in [Part::ArmL, Part::ArmR, Part::LegL, Part::LegR] {
        s.sever(p);
    }
    assert!(s.legless());
    assert_eq!(s.severed_count(), 4);
    assert!(!s.fallen_apart());
    s.sever(Part::Head);
    assert_eq!(s.severed_count(), 5);
    assert!(s.fallen_apart());
    // with every region gone, exactly the bones between regions are cut
    s.sever(Part::Torso);
    assert!(s
        .links
        .iter()
        .all(|l| l.broken == (particle_part(l.a) != particle_part(l.b))));
}

#[test]
fn injury_order_does_not_matter() {
    let mut a = Skeleton::human();
    a.sever(Part::LegR);
    a.sever(Part::Torso);
    let mut b = Skeleton::human();
    b.sever(Part::Torso);
    b.sever(Part::LegR);
    assert_eq!(broken_pairs(&a), broken_pairs(&b));
    assert_eq!(a.severed, b.severed);
    assert_eq!(a.dead, b.dead);
    assert!(a.links.iter().any(|l| (l.a, l.b) == (L_KNEE, R_KNEE) && l.broken));
    assert!(a.links.iter().any(|l| (l.a, l.b) == (L_KNEE, L_FOOT) && !l.broken));
}

#[test]
fn solid_ground_for_bodies() {
    let mut w = World::new();
    w.spawn(5, 5, Element::Stone, 0);
    w.spawn(6, 5, Element::Sand, 0);
    w.spawn(7, 5, Element::Water, 0);
    w.spawn(8, 5, Element::Smoke, 80);
    assert!(w.solid_at(5, 5));
    assert!(w.solid_at(6, 5));
    assert!(!w.solid_at(7, 5));
    assert!(!w.solid_at(8, 5));
    assert!(!w.solid_at(9, 5));
    assert!(w.solid_at(-1, 5));
    assert!(w.solid_at(W as i32, 5));
}

#[test]
fn drip_fills_only_empty_cells() {
    let mut w = World::new();
    w.spawn(10, 10, Element::Stone, 0);
    w.drip(10, 10, Element::Blood);
    assert_eq!(w.el_at(10, 10), Element::Stone);
    w.drip(11, 10, Element::Blood);
    assert_eq!(w.el_at(11, 10), Element::Blood);
    assert_eq!(w.cells[idx(11, 10)].life, 0);
    w.drip(12, 10, Element::Fire);
    let c = w.cells[idx(12, 10)];
    assert_eq!(c.el, Element::Fire);
    assert!((40..90).contains(&c.life));
    assert_eq!(w.temp[idx(12, 10)], 720_000);
    w.drip(-3, 10, Element::Blood);
}
