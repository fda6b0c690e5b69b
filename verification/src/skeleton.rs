//! The skeleton of a ragdoll human: fourteen point masses grouped into six
//! damageable regions.

use vstd::prelude::*;

verus! {

/// Particle indices of the humanoid skeleton (feet on the ground, head on top).
pub const HEAD: usize = 0;
pub const NECK: usize = 1;
pub const CHEST: usize = 2;
pub const PELVIS: usize = 3;
pub const L_SHOULDER: usize = 4;
pub const L_ELBOW: usize = 5;
pub const L_HAND: usize = 6;
pub const R_SHOULDER: usize = 7;
pub const R_ELBOW: usize = 8;
pub const R_HAND: usize = 9;
pub const L_KNEE: usize = 10;
pub const L_FOOT: usize = 11;
pub const R_KNEE: usize = 12;
pub const R_FOOT: usize = 13;
/// Number of particles in a body.
pub const N: usize = 14;

/// The six damageable regions of a body.
#[derive(Clone, Copy, PartialEq, Eq, Debug, Structural)]
pub enum Part {
    Head,
    Torso,
    ArmL,
    ArmR,
    LegL,
    LegR,
}

/// The particles that make up each region.
pub open spec fn part_particles(p: Part) -> Seq<usize> {
    match p {
        Part::Head => seq![HEAD],
        Part::Torso => seq![NECK, CHEST, PELVIS],
        Part::ArmL => seq![L_SHOULDER, L_ELBOW, L_HAND],
        Part::ArmR => seq![R_SHOULDER, R_ELBOW, R_HAND],
        Part::LegL => seq![L_KNEE, L_FOOT],
        Part::LegR => seq![R_KNEE, R_FOOT],
    }
}

/// Position of a region in the per-part tables.
pub open spec fn part_index(p: Part) -> int {
    match p {
        Part::Head => 0,
        Part::Torso => 1,
        Part::ArmL => 2,
        Part::ArmR => 3,
        Part::LegL => 4,
        Part::LegR => 5,
    }
}

/// The region a particle belongs to (any index past the skeleton counts as right leg).
pub open spec fn spec_particle_part(i: usize) -> Part {
    if i == HEAD {
        Part::Head
    } else if i == NECK || i == CHEST || i == PELVIS {
        Part::Torso
    } else if i == L_SHOULDER || i == L_ELBOW || i == L_HAND {
        Part::ArmL
    } else if i == R_SHOULDER || i == R_ELBOW || i == R_HAND {
        Part::ArmR
    } else if i == L_KNEE || i == L_FOOT {
        Part::LegL
    } else {
        Part::LegR
    }
}

impl Part {
    /// Position of this region in the per-part tables.
    pub fn idx(self) -> (i: usize)
        ensures
            i == part_index(self),
            i < 6,
    {
        match self {
            Part::Head => 0,
            Part::Torso => 1,
            Part::ArmL => 2,
            Part::ArmR => 3,
            Part::LegL => 4,
            Part::LegR => 5,
        }
    }

    /// Which particles make up this region (severing cuts links that cross out).
    pub fn particles(self) -> (ps: &'static [usize])
        ensures
            ps@ == part_particles(self),
    {
        match self {
            Part::Head => &[HEAD],
            Part::Torso => &[NECK, CHEST, PELVIS],
            Part::ArmL => &[L_SHOULDER, L_ELBOW, L_HAND],
            Part::ArmR => &[R_SHOULDER, R_ELBOW, R_HAND],
            Part::LegL => &[L_KNEE, L_FOOT],
            Part::LegR => &[R_KNEE, R_FOOT],
        }
    }
}

/// Which region a particle index belongs to (for damage routing and colour).
pub fn particle_part(i: usize) -> (p: Part)
    ensures
        p == spec_particle_part(i),
{
    match i {
        HEAD => Part::Head,
        NECK | CHEST | PELVIS => Part::Torso,
        L_SHOULDER | L_ELBOW | L_HAND => Part::ArmL,
        R_SHOULDER | R_ELBOW | R_HAND => Part::ArmR,
        L_KNEE | L_FOOT => Part::LegL,
        _ => Part::LegR,
    }
}

/// The regions partition the skeleton: each particle belongs to the region
/// that lists it, and to no other.
pub proof fn lemma_regions_partition(i: usize, p: Part)
    requires
        i < N,
    ensures
        part_particles(p).contains(i) <==> spec_particle_part(i) == p,
{
    let s = part_particles(p);
    if spec_particle_part(i) == p {
        if s[0] == i {
            assert(s.contains(i));
        } else if s.len() > 1 && s[1] == i {
            assert(s.contains(i));
        } else {
            assert(s.len() > 2 && s[2] == i);
            assert(s.contains(i));
        }
    }
    if s.contains(i) {
        let k = choose|k: int| 0 <= k < s.len() && s[k] == i;
        assert(spec_particle_part(s[k]) == p);
    }
}

/// A bone between two particles; cut when a region it leaves is severed.
#[derive(Clone, Copy, PartialEq, Eq, Debug, Structural)]
pub struct Link {
    pub a: usize,
    pub b: usize,
    pub broken: bool,
}

/// The bones of a standing human: limbs first, then the internal bracing
/// that keeps the torso in shape.
pub open spec fn human_links() -> Seq<(usize, usize)> {
    seq![
        (HEAD, NECK),
        (NECK, CHEST),
        (CHEST, PELVIS),
        (CHEST, L_SHOULDER),
        (L_SHOULDER, L_ELBOW),
        (L_ELBOW, L_HAND),
        (CHEST, R_SHOULDER),
        (R_SHOULDER, R_ELBOW),
        (R_ELBOW, R_HAND),
        (PELVIS, L_KNEE),
        (L_KNEE, L_FOOT),
        (PELVIS, R_KNEE),
        (R_KNEE, R_FOOT),
        (L_SHOULDER, R_SHOULDER),
        (L_SHOULDER, PELVIS),
        (R_SHOULDER, PELVIS),
        (HEAD, CHEST),
        (L_KNEE, R_KNEE),
    ]
}

/// Does the bone leave region `p`: is exactly one of its ends inside it?
pub open spec fn crosses(l: Link, p: Part) -> bool {
    part_particles(p).contains(l.a) != part_particles(p).contains(l.b)
}

/// `links` with every bone that leaves region `p` cut.
pub open spec fn cut_links(links: Seq<Link>, p: Part) -> Seq<Link> {
    links.map_values(|l: Link| Link { broken: l.broken || crosses(l, p), ..l })
}

/// The number of severed regions.
pub open spec fn count_severed(s: Seq<bool>) -> int
    decreases s.len(),
{
    if s.len() == 0 {
        0
    } else {
        count_severed(s.drop_last()) + if s.last() {
            1int
        } else {
            0int
        }
    }
}

/// Does severing region `p` kill the body?
pub open spec fn fatal(p: Part) -> bool {
    p == Part::Head || p == Part::Torso
}

/// The breakable structure of a ragdoll human: its bones, which regions have
/// been severed, and whether it is dead.
pub struct Skeleton {
    pub links: Vec<Link>,
    /// per region, in `Part::idx` order
    pub severed: Vec<bool>,
    pub dead: bool,
}

impl Skeleton {
    /// The bones are those of a human; a bone is broken exactly when it leaves
    /// a severed region; the body is dead exactly when its head or torso is severed.
    pub open spec fn wf(&self) -> bool {
        &&& self.links@.len() == human_links().len()
        &&& self.severed@.len() == 6
        &&& forall|k: int|
            0 <= k < self.links@.len() ==> (#[trigger] self.links@[k]).a == human_links()[k].0
                && self.links@[k].b == human_links()[k].1
        &&& forall|k: int|
            0 <= k < self.links@.len() ==> #[trigger] self.links@[k].broken == exists|p: Part|
                #[trigger] crosses(self.links@[k], p) && self.severed@[part_index(p)]
        &&& self.dead == (self.severed@[0] || self.severed@[1])
    }

    /// A whole, living human.
    pub fn human() -> (s: Skeleton)
        ensures
            s.wf(),
            forall|k: int| 0 <= k < s.links@.len() ==> !(#[trigger] s.links@[k]).broken,
            forall|i: int| 0 <= i < 6 ==> !(#[trigger] s.severed@[i]),
            !s.dead,
    {
        let pairs: [(usize, usize); 18] = [
            (HEAD, NECK),
            (NECK, CHEST),
            (CHEST, PELVIS),
            (CHEST, L_SHOULDER),
            (L_SHOULDER, L_ELBOW),
            (L_ELBOW, L_HAND),
            (CHEST, R_SHOULDER),
            (R_SHOULDER, R_ELBOW),
            (R_ELBOW, R_HAND),
            (PELVIS, L_KNEE),
            (L_KNEE, L_FOOT),
            (PELVIS, R_KNEE),
            (R_KNEE, R_FOOT),
            (L_SHOULDER, R_SHOULDER),
            (L_SHOULDER, PELVIS),
            (R_SHOULDER, PELVIS),
            (HEAD, CHEST),
            (L_KNEE, R_KNEE),
        ];
        assert(pairs@ =~= human_links());
        let mut links: Vec<Link> = Vec::new();
        let mut k: usize = 0;
        while k < 18
            invariant
                k <= 18,
                pairs@ == human_links(),
                links@.len() == k,
                forall|j: int|
                    0 <= j < k ==> (#[trigger] links@[j]) == (Link {
                        a: human_links()[j].0,
                        b: human_links()[j].1,
                        broken: false,
                    }),
            decreases 18 - k,
        {
            let (a, b) = pairs[k];
            links.push(Link { a, b, broken: false });
            k = k + 1;
        }
        let severed = vec![false, false, false, false, false, false];
        Skeleton { links, severed, dead: false }
    }

    /// Is region `p` severed?
    pub fn is_severed(&self, p: Part) -> (b: bool)
        requires
            self.wf(),
        ensures
            b == self.severed@[part_index(p)],
    {
        self.severed[p.idx()]
    }

    /// Severs region `p`, unless it already is: every bone that leaves the
    /// region is cut, and losing the head or torso kills. Returns whether it
    /// was cut now.
    pub fn sever(&mut self, p: Part) -> (cut: bool)
        requires
            old(self).wf(),
        ensures
            final(self).wf(),
            cut == !old(self).severed@[part_index(p)],
            !cut ==> final(self).links@ == old(self).links@ && final(self).severed@ == old(
                self,
            ).severed@ && final(self).dead == old(self).dead,
            cut ==> final(self).links@ == cut_links(old(self).links@, p),
            cut ==> final(self).severed@ == old(self).severed@.update(part_index(p), true),
            cut ==> final(self).dead == (old(self).dead || fatal(p)),
    {
        let pi = p.idx();
        if self.severed[pi] {
            return false;
        }
        self.severed.set(pi, true);
        let n = self.links.len();
        let mut k: usize = 0;
        while k < n
            invariant
                n == old(self).links@.len(),
                n == human_links().len(),
                k <= n,
                old(self).wf(),
                pi == part_index(p),
                self.severed@ == old(self).severed@.update(pi as int, true),
                self.dead == old(self).dead,
                self.links@.len() == n,
                forall|j: int|
                    0 <= j < n ==> #[trigger] self.links@[j] == if j < k {
                        cut_links(old(self).links@, p)[j]
                    } else {
                        old(self).links@[j]
                    },
            decreases n - k,
        {
            let l = self.links[k];
            proof {
                lemma_regions_partition(l.a, p);
                lemma_regions_partition(l.b, p);
                lemma_link_ends(k as int);
            }
            let a_in = particle_part(l.a) == p;
            let b_in = particle_part(l.b) == p;
            if a_in != b_in {
                self.links.set(k, Link { broken: true, ..l });
            }
            k = k + 1;
        }
        if p == Part::Head || p == Part::Torso {
            self.dead = true;
        }
        proof {
            assert(self.links@ =~= cut_links(old(self).links@, p));
            assert forall|k: int| 0 <= k < self.links@.len() implies #[trigger] self.links@[k].broken
                == exists|q: Part| #[trigger] crosses(self.links@[k], q) && self.severed@[part_index(q)] by {
                let ol = old(self).links@[k];
                assert(crosses(self.links@[k], p) == crosses(ol, p));
                if crosses(ol, p) {
                    assert(crosses(self.links@[k], p) && self.severed@[part_index(p)]);
                }
                if old(self).links@[k].broken {
                    let q = choose|q: Part| #[trigger] crosses(ol, q) && old(self).severed@[part_index(q)];
                    assert(crosses(self.links@[k], q) && self.severed@[part_index(q)]);
                }
                if exists|q: Part| #[trigger] crosses(self.links@[k], q) && self.severed@[part_index(q)] {
                    let q = choose|q: Part| #[trigger] crosses(self.links@[k], q) && self.severed@[part_index(q)];
                    if q != p {
                        assert(part_index(q) != part_index(p));
                        assert(crosses(ol, q) && old(self).severed@[part_index(q)]);
                    }
                }
            }
        }
        true
    }

    /// How many regions have been severed.
    pub fn severed_count(&self) -> (n: usize)
        requires
            self.wf(),
        ensures
            n == count_severed(self.severed@),
    {
        let mut n: usize = 0;
        let mut i: usize = 0;
        while i < 6
            invariant
                i <= 6,
                self.severed@.len() == 6,
                n == count_severed(self.severed@.take(i as int)),
                n <= i,
            decreases 6 - i,
        {
            assert(self.severed@.take(i as int + 1).drop_last() =~= self.severed@.take(i as int));
            if self.severed[i] {
                n = n + 1;
            }
            i = i + 1;
        }
        assert(self.severed@.take(6) =~= self.severed@);
        n
    }

    /// Has the body fallen apart (five or more regions severed), so that it
    /// should be cleared away?
    pub fn fallen_apart(&self) -> (b: bool)
        requires
            self.wf(),
        ensures
            b == (count_severed(self.severed@) >= 5),
    {
        self.severed_count() >= 5
    }

    /// Have both legs been severed?
    pub fn legless(&self) -> (b: bool)
        requires
            self.wf(),
        ensures
            b == (self.severed@[part_index(Part::LegL)] && self.severed@[part_index(Part::LegR)]),
    {
        self.severed[Part::LegL.idx()] && self.severed[Part::LegR.idx()]
    }
}

/// Both ends of every bone of a human are particles of the skeleton.
proof fn lemma_link_ends(k: int)
    requires
        0 <= k < human_links().len(),
    ensures
        human_links()[k].0 < N,
        human_links()[k].1 < N,
{
}

/// Severing is idempotent: severing a region a second time changes nothing.
pub proof fn lemma_sever_twice(links: Seq<Link>, p: Part)
    ensures
        cut_links(cut_links(links, p), p) == cut_links(links, p),
{
    assert(cut_links(cut_links(links, p), p) =~= cut_links(links, p));
}

/// Injuries commute: severing `p` then `q` cuts the same bones as `q` then `p`.
pub proof fn lemma_sever_commutes(links: Seq<Link>, p: Part, q: Part)
    ensures
        cut_links(cut_links(links, p), q) == cut_links(cut_links(links, q), p),
{
    assert(cut_links(cut_links(links, p), q) =~= cut_links(cut_links(links, q), p));
}

} // verus!
