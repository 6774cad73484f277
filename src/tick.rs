//! What one simulation tick decides from plain facts: which pairs collide, what
//! the collisions mean for fragile entities and for the player, which bindings
//! are enforced, which entities fell out of play, and whether a snapshot goes
//! out.
use crate::world::{well_ordered, Entity, World};
use vstd::prelude::*;

verus! {

/// How hard a collision was, as the response step judged it.
#[derive(Clone, Copy, Debug, PartialEq, Eq, Structural)]
pub enum CollisionType {
    Missed,
    Weak,
    Strong,
}

/// `p` comes strictly before `q` in row-major order.
pub open spec fn pair_before(p: (usize, usize), q: (usize, usize)) -> bool {
    p.0 < q.0 || (p.0 == q.0 && p.1 < q.1)
}

/// Entity `i` is collided with the later entity `j` in the all-pairs pass:
/// every such pair but those of two static entities.
pub open spec fn collides<A, B>(es: Seq<Entity<A, B>>, i: int, j: int) -> bool {
    &&& 0 <= i < j < es.len()
    &&& !(es[i].flags.is_static && es[j].flags.is_static)
}

/// Entity `k` took a strong collision in one of the listed pairs.
pub open spec fn hit_hard(pairs: Seq<(usize, usize)>, impacts: Seq<CollisionType>, k: int) -> bool {
    exists|m: int|
        0 <= m < pairs.len() && impacts[m] == CollisionType::Strong && (#[trigger] pairs[m].0 == k
            || pairs[m].1 == k)
}

/// The player (entity 0) touched, in one of the listed pairs, an entity whose
/// deadliness is `deadly`.
pub open spec fn player_touched<A, B>(
    es: Seq<Entity<A, B>>,
    pairs: Seq<(usize, usize)>,
    impacts: Seq<CollisionType>,
    deadly: bool,
) -> bool {
    exists|m: int|
        0 <= m < pairs.len() && #[trigger] pairs[m].0 == 0 && impacts[m] != CollisionType::Missed
            && es[pairs[m].1 as int].flags.is_deadly == deadly
}

/// What the all-pairs pass of one tick amounts to.
pub struct Tally {
    /// `doomed[k]`: entity `k` is fragile and was hit hard; it is removed
    /// after the pass.
    pub doomed: Vec<bool>,
    /// The player touched a deadly entity: the level restarts.
    pub player_hit_deadly: bool,
    /// The player touched a harmless entity: its jumps are refilled.
    pub player_landed: bool,
}

/// A binding to enforce: bond `bond` of entity `owner`, whose partner stands
/// at `partner`.
#[derive(Clone, Copy, Debug, PartialEq, Eq, Structural)]
pub struct Link {
    pub owner: usize,
    pub bond: usize,
    pub partner: usize,
}

impl Link {
    /// The owner and the index of the bond, which order the links.
    pub open spec fn owner_bond(self) -> (usize, usize) {
        (self.owner, self.bond)
    }
}

/// Bond `b` of entity `o` names an entity that is still alive.
pub open spec fn is_live_bond<A, B>(es: Seq<Entity<A, B>>, o: int, b: int) -> bool {
    &&& 0 <= o < es.len()
    &&& 0 <= b < es[o].bonds@.len()
    &&& exists|p: int| 0 <= p < es.len() && #[trigger] es[p].id == es[o].bonds@[b].partner
}

/// `l` is a live bond, with its partner's position.
pub open spec fn is_link_of<A, B>(es: Seq<Entity<A, B>>, l: Link) -> bool {
    &&& is_live_bond(es, l.owner as int, l.bond as int)
    &&& l.owner < l.partner < es.len()
    &&& es[l.partner as int].id == es[l.owner as int].bonds@[l.bond as int].partner
}

/// A binding expires with its partner: once entity `k` is removed from a
/// well-ordered registry (`after`, as `World::remove_at` leaves it), no link
/// of what remains (as `World::links` lists them) enforces a bond that named
/// the removed entity.
pub proof fn removed_partner_is_never_linked<A, B>(
    before: Seq<Entity<A, B>>,
    next_id: u64,
    k: int,
    after: Seq<Entity<A, B>>,
    links: Seq<Link>,
)
    requires
        well_ordered(before, next_id),
        0 <= k < before.len(),
        after == before.remove(k),
        forall|m: int| 0 <= m < links.len() ==> is_link_of(after, #[trigger] links[m]),
    ensures
        forall|m: int|
            0 <= m < links.len() ==> after[links[m].owner as int].bonds@[#[trigger] links[m].bond as int].partner
                != before[k].id,
{
    assert forall|m: int| 0 <= m < links.len() implies after[links[m].owner as int].bonds@[#[trigger] links[m].bond as int].partner
        != before[k].id by {
        let l = links[m];
        assert(is_link_of(after, l));
        let p = l.partner as int;
        let q = if p < k {
            p
        } else {
            p + 1
        };
        assert(after[p] == before[q]);
        assert(q != k);
        if q < k {
            assert(before[q].id.0 < before[k].id.0);
        } else {
            assert(before[k].id.0 < before[q].id.0);
        }
    }
}

/// What a tick does, given whether the snapshot slot is empty at its start.
#[derive(Clone, Copy, Debug, PartialEq, Eq, Structural)]
pub struct TickPlan {
    pub integrate: bool,
    pub collide: bool,
    pub enforce_bindings: bool,
    pub publish: bool,
}

/// Physics always advances; a snapshot is published only when the consumer
/// has taken the previous one, so a slow consumer never holds the simulation
/// back.
pub fn plan_tick(slot_empty: bool) -> (r: TickPlan)
    ensures
        r.integrate,
        r.collide,
        r.enforce_bindings,
        r.publish == slot_empty,
{
    TickPlan { integrate: true, collide: true, enforce_bindings: true, publish: slot_empty }
}

/// Marks the entities that leave play for having fallen out of bounds
/// (`fallen[k]`); the player, entity 0, is never among them.
pub fn out_of_play(fallen: &Vec<bool>) -> (r: Vec<bool>)
    ensures
        r@.len() == fallen@.len(),
        forall|k: int| 0 <= k < fallen@.len() ==> #[trigger] r@[k] == (k != 0 && fallen@[k]),
{
    let mut r: Vec<bool> = Vec::new();
    let mut k: usize = 0;
    while k < fallen.len()
        invariant
            k <= fallen@.len(),
            r@.len() == k,
            forall|m: int| 0 <= m < k ==> #[trigger] r@[m] == (m != 0 && fallen@[m]),
        decreases fallen@.len() - k,
    {
        r.push(k != 0 && fallen[k]);
        k = k + 1;
    }
    r
}

/// What the tip of a hazard beam meets at one step of its march.
#[derive(Clone, Copy, Debug, PartialEq, Eq, Structural)]
pub enum BeamStep {
    /// The player: the level restarts.
    HitsPlayer,
    /// Another entity: the beam ends here.
    Blocked,
    /// Nothing: the beam goes on.
    Advance,
}

/// Decides one step of a beam's march from which entities contain its tip
/// (`covers[k]`; entity 0 is the player, which is checked first).
pub fn beam_step(covers: &Vec<bool>) -> (r: BeamStep)
    ensures
        covers@.len() > 0 && covers@[0] ==> r == BeamStep::HitsPlayer,
        !(covers@.len() > 0 && covers@[0]) && (exists|k: int| 0 <= k < covers@.len() && #[trigger] covers@[k])
            ==> r == BeamStep::Blocked,
        (forall|k: int| 0 <= k < covers@.len() ==> !#[trigger] covers@[k]) ==> r == BeamStep::Advance,
{
    if covers.len() > 0 && covers[0] {
        return BeamStep::HitsPlayer;
    }
    let mut k: usize = 0;
    while k < covers.len()
        invariant
            k <= covers@.len(),
            !(covers@.len() > 0 && covers@[0]),
            forall|m: int| 0 <= m < k ==> !#[trigger] covers@[m],
        decreases covers@.len() - k,
    {
        if covers[k] {
            return BeamStep::Blocked;
        }
        k = k + 1;
    }
    BeamStep::Advance
}

/// How a sweeping beam moves on after one tick.
#[derive(Clone, Copy, Debug, PartialEq, Eq, Structural)]
pub struct SweepTurn {
    /// The sweep reverses its direction.
    pub reverse: bool,
    /// The beam counts as out of its range for the next tick.
    pub is_out: bool,
}

/// A beam that has swept past its range (`beyond_range`) reverses, unless it
/// already reversed on the tick before (`is_out`), so that it has a tick to
/// swing back in.
pub fn sweep_turn(is_out: bool, beyond_range: bool) -> (r: SweepTurn)
    ensures
        r.reverse == (beyond_range && !is_out),
        r.is_out == r.reverse,
{
    let reverse = beyond_range && !is_out;
    SweepTurn { reverse, is_out: reverse }
}

impl<A, B> World<A, B> {
    /// The pairs of the all-pairs collision pass, in the order it runs them:
    /// every `(i, j)` with `i < j` but those of two static entities, in
    /// row-major order.
    pub fn collision_pairs(&self) -> (r: Vec<(usize, usize)>)
        ensures
            forall|k: int| 0 <= k < r@.len() ==> collides(self@, #[trigger] r@[k].0 as int, r@[k].1 as int),
            forall|k: int, l: int| 0 <= k < l < r@.len() ==> pair_before(#[trigger] r@[k], #[trigger] r@[l]),
            forall|i: int, j: int| #[trigger] collides(self@, i, j) ==> exists|k: int|
                0 <= k < r@.len() && #[trigger] r@[k] == (i as usize, j as usize),
    {
        let es = self.entities();
        let n = es.len();
        let mut r: Vec<(usize, usize)> = Vec::new();
        let mut i: usize = 0;
        while i < n
            invariant
                n == self@.len(),
                es@ == self@,
                i <= n,
                forall|k: int| 0 <= k < r@.len() ==> collides(self@, #[trigger] r@[k].0 as int, r@[k].1 as int),
                forall|k: int, l: int| 0 <= k < l < r@.len() ==> pair_before(#[trigger] r@[k], #[trigger] r@[l]),
                forall|k: int| 0 <= k < r@.len() ==> #[trigger] r@[k].0 < i,
                forall|a: int, b: int| #[trigger] collides(self@, a, b) && a < i ==> exists|k: int|
                    0 <= k < r@.len() && #[trigger] r@[k] == (a as usize, b as usize),
            decreases n - i,
        {
            let mut j: usize = i + 1;
            while j < n
                invariant
                    n == self@.len(),
                    es@ == self@,
                    i < n,
                    i + 1 <= j <= n,
                    forall|k: int| 0 <= k < r@.len() ==> collides(self@, #[trigger] r@[k].0 as int, r@[k].1 as int),
                    forall|k: int, l: int| 0 <= k < l < r@.len() ==> pair_before(#[trigger] r@[k], #[trigger] r@[l]),
                    forall|k: int| 0 <= k < r@.len() ==> pair_before(#[trigger] r@[k], (i, j)),
                    forall|a: int, b: int| #[trigger] collides(self@, a, b) && (a < i || (a == i && b < j)) ==> exists|k: int|
                        0 <= k < r@.len() && #[trigger] r@[k] == (a as usize, b as usize),
                decreases n - j,
            {
                if !(es[i].flags.is_static && es[j].flags.is_static) {
                    let ghost before = r@;
                    r.push((i, j));
                    assert forall|a: int, b: int| #[trigger] collides(self@, a, b) && (a < i || (a == i && b < j + 1)) implies exists|k: int|
                        0 <= k < r@.len() && #[trigger] r@[k] == (a as usize, b as usize) by {
                        if a == i && b == j {
                            assert(r@[before.len() as int] == (a as usize, b as usize));
                        } else {
                            let k = choose|k: int| 0 <= k < before.len() && #[trigger] before[k] == (a as usize, b as usize);
                            assert(r@[k] == before[k]);
                        }
                    }
                }
                j = j + 1;
            }
            i = i + 1;
        }
        r
    }

    /// Sums up the all-pairs pass: `impacts[m]` is how pair `pairs[m]` collided.
    /// A fragile entity that took a strong collision is doomed (each at most
    /// once, whatever the number of hits); a collision of the player with a
    /// deadly entity restarts the level, one with any other entity refills the
    /// player's jumps.
    pub fn tally(&self, pairs: &Vec<(usize, usize)>, impacts: &Vec<CollisionType>) -> (r: Tally)
        requires
            pairs@.len() == impacts@.len(),
            forall|m: int| 0 <= m < pairs@.len() ==> (#[trigger] pairs@[m]).0 < self@.len() && pairs@[m].1 < self@.len(),
        ensures
            r.doomed@.len() == self@.len(),
            forall|k: int| 0 <= k < self@.len() ==> #[trigger] r.doomed@[k] == (self@[k].flags.is_fragile
                && hit_hard(pairs@, impacts@, k)),
            r.player_hit_deadly == player_touched(self@, pairs@, impacts@, true),
            r.player_landed == player_touched(self@, pairs@, impacts@, false),
    {
        let es = self.entities();
        let n = es.len();
        let mut doomed: Vec<bool> = Vec::new();
        let mut k: usize = 0;
        while k < n
            invariant
                k <= n,
                doomed@.len() == k,
                forall|x: int| 0 <= x < k ==> !#[trigger] doomed@[x],
            decreases n - k,
        {
            doomed.push(false);
            k = k + 1;
        }
        let mut deadly = false;
        let mut landed = false;
        let mut m: usize = 0;
        while m < pairs.len()
            invariant
                n == self@.len(),
                es@ == self@,
                pairs@.len() == impacts@.len(),
                forall|q: int| 0 <= q < pairs@.len() ==> (#[trigger] pairs@[q]).0 < n && pairs@[q].1 < n,
                m <= pairs@.len(),
                doomed@.len() == n,
                forall|x: int| 0 <= x < n ==> #[trigger] doomed@[x] == (self@[x].flags.is_fragile
                    && hit_hard(pairs@.take(m as int), impacts@.take(m as int), x)),
                deadly == player_touched(self@, pairs@.take(m as int), impacts@.take(m as int), true),
                landed == player_touched(self@, pairs@.take(m as int), impacts@.take(m as int), false),
            decreases pairs@.len() - m,
        {
            let (a, b) = pairs[m];
            let impact = impacts[m];
            let ghost ps = pairs@.take(m as int);
            let ghost is = impacts@.take(m as int);
            let ghost ps2 = pairs@.take(m + 1);
            let ghost is2 = impacts@.take(m + 1);
            assert(ps2 =~= ps.push(pairs@[m as int]));
            assert(is2 =~= is.push(impacts@[m as int]));
            if impact == CollisionType::Strong {
                if es[a].flags.is_fragile {
                    doomed[a] = true;
                }
                if es[b].flags.is_fragile {
                    doomed[b] = true;
                }
            }
            if a == 0 && impact != CollisionType::Missed {
                if es[b].flags.is_deadly {
                    deadly = true;
                } else {
                    landed = true;
                }
            }
            assert forall|x: int| 0 <= x < n implies #[trigger] doomed@[x] == (self@[x].flags.is_fragile
                && hit_hard(ps2, is2, x)) by {
                if hit_hard(ps, is, x) {
                    let q = choose|q: int| 0 <= q < ps.len() && is[q] == CollisionType::Strong && (#[trigger] ps[q].0 == x || ps[q].1 == x);
                    assert(ps2[q] == ps[q] && is2[q] == is[q]);
                }
                if impact == CollisionType::Strong && (a == x || b == x) {
                    assert(ps2[m as int] == (a, b) && is2[m as int] == impact);
                }
                if hit_hard(ps2, is2, x) {
                    let q = choose|q: int| 0 <= q < ps2.len() && is2[q] == CollisionType::Strong && (#[trigger] ps2[q].0 == x || ps2[q].1 == x);
                    if q < m {
                        assert(ps[q] == ps2[q] && is[q] == is2[q]);
                    }
                }
            }
            assert forall|d: bool| #![auto] player_touched(self@, ps2, is2, d) == (player_touched(self@, ps, is, d) || (a == 0 && impact != CollisionType::Missed && self@[b as int].flags.is_deadly == d)) by {
                if player_touched(self@, ps, is, d) {
                    let q = choose|q: int| 0 <= q < ps.len() && #[trigger] ps[q].0 == 0 && is[q] != CollisionType::Missed && self@[ps[q].1 as int].flags.is_deadly == d;
                    assert(ps2[q] == ps[q] && is2[q] == is[q]);
                }
                if a == 0 && impact != CollisionType::Missed && self@[b as int].flags.is_deadly == d {
                    assert(ps2[m as int] == (a, b) && is2[m as int] == impact);
                }
                if player_touched(self@, ps2, is2, d) {
                    let q = choose|q: int| 0 <= q < ps2.len() && #[trigger] ps2[q].0 == 0 && is2[q] != CollisionType::Missed && self@[ps2[q].1 as int].flags.is_deadly == d;
                    if q < m {
                        assert(ps[q] == ps2[q] && is[q] == is2[q]);
                    }
                }
            }
            m = m + 1;
        }
        assert(pairs@.take(pairs@.len() as int) =~= pairs@);
        assert(impacts@.take(impacts@.len() as int) =~= impacts@);
        Tally { doomed, player_hit_deadly: deadly, player_landed: landed }
    }

    /// The bindings to enforce this tick, in the order they run: entity by
    /// entity in declaration order, and each entity's bonds in order; a bond
    /// whose partner is gone is passed over. Every partner stands after its
    /// owner.
    pub fn links(&self) -> (r: Vec<Link>)
        requires
            self.wf(),
        ensures
            forall|k: int| 0 <= k < r@.len() ==> is_link_of(self@, #[trigger] r@[k]),
            forall|k: int, l: int| 0 <= k < l < r@.len() ==> pair_before(
                (#[trigger] r@[k]).owner_bond(),
                (#[trigger] r@[l]).owner_bond(),
            ),
            forall|o: int, b: int| #[trigger] is_live_bond(self@, o, b) ==> exists|k: int|
                0 <= k < r@.len() && #[trigger] r@[k].owner_bond() == (o as usize, b as usize),
    {
        let es = self.entities();
        let n = es.len();
        let mut r: Vec<Link> = Vec::new();
        let mut o: usize = 0;
        while o < n
            invariant
                self.wf(),
                n == self@.len(),
                es@ == self@,
                o <= n,
                forall|k: int| 0 <= k < r@.len() ==> is_link_of(self@, #[trigger] r@[k]),
                forall|k: int, l: int| 0 <= k < l < r@.len() ==> pair_before((#[trigger] r@[k]).owner_bond(), (#[trigger] r@[l]).owner_bond()),
                forall|k: int| 0 <= k < r@.len() ==> (#[trigger] r@[k]).owner < o,
                forall|a: int, b: int| #[trigger] is_live_bond(self@, a, b) && a < o ==> exists|k: int|
                    0 <= k < r@.len() && #[trigger] r@[k].owner_bond() == (a as usize, b as usize),
            decreases n - o,
        {
            let bonds = &es[o].bonds;
            let mut b: usize = 0;
            while b < bonds.len()
                invariant
                    self.wf(),
                    n == self@.len(),
                    es@ == self@,
                    o < n,
                    bonds@ == self@[o as int].bonds@,
                    b <= bonds@.len(),
                    forall|k: int| 0 <= k < r@.len() ==> is_link_of(self@, #[trigger] r@[k]),
                    forall|k: int, l: int| 0 <= k < l < r@.len() ==> pair_before((#[trigger] r@[k]).owner_bond(), (#[trigger] r@[l]).owner_bond()),
                    forall|k: int| 0 <= k < r@.len() ==> pair_before((#[trigger] r@[k]).owner_bond(), (o, b)),
                    forall|x: int, y: int| #[trigger] is_live_bond(self@, x, y) && (x < o || (x == o && y < b)) ==> exists|k: int|
                        0 <= k < r@.len() && #[trigger] r@[k].owner_bond() == (x as usize, y as usize),
                decreases bonds@.len() - b,
            {
                let found = self.position(bonds[b].partner);
                match found {
                    Some(p) => {
                        proof {
                            let owner_id = self@[o as int].id.0;
                            assert(owner_id < self@[o as int].bonds@[b as int].partner.0);
                            if p <= o {
                                if p < o {
                                    assert(self@[p as int].id.0 < self@[o as int].id.0);
                                }
                            }
                        }
                        let ghost before = r@;
                        let link = Link { owner: o, bond: b, partner: p };
                        r.push(link);
                        assert forall|x: int, y: int| #[trigger] is_live_bond(self@, x, y) && (x < o || (x == o && y < b + 1)) implies exists|k: int|
                            0 <= k < r@.len() && #[trigger] r@[k].owner_bond() == (x as usize, y as usize) by {
                            if x == o && y == b {
                                assert(r@[before.len() as int].owner_bond() == (x as usize, y as usize));
                            } else {
                                let k = choose|k: int| 0 <= k < before.len() && #[trigger] before[k].owner_bond() == (x as usize, y as usize);
                                assert(r@[k] == before[k]);
                            }
                        }
                    },
                    None => {},
                }
                b = b + 1;
            }
            o = o + 1;
        }
        r
    }
}

} // verus!
