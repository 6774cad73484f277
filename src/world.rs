//! The registry of simulated entities.
//!
//! Entities stand in declaration order. Each gets an identifier that is never
//! handed out again, so a binding that names its partner by identifier simply
//! finds nothing once that partner is gone. A binding only ever names an entity
//! declared after its owner.
use vstd::prelude::*;

verus! {

/// Identifies one entity for as long as it lives; never reused.
#[derive(Clone, Copy, Debug, PartialEq, Eq, Structural)]
pub struct EntityId(pub u64);

/// How an entity takes part in the simulation.
#[derive(Clone, Copy, Debug, PartialEq, Eq, Structural)]
pub struct Flags {
    pub is_erasable: bool,
    pub is_bindable: bool,
    pub is_static: bool,
    pub is_deadly: bool,
    pub is_fragile: bool,
}

impl Flags {
    /// A shape drawn by the player: dynamic, erasable and bindable.
    pub fn drawn() -> (r: Flags)
        ensures
            r == (Flags {
                is_erasable: true,
                is_bindable: true,
                is_static: false,
                is_deadly: false,
                is_fragile: false,
            }),
    {
        Flags {
            is_erasable: true,
            is_bindable: true,
            is_static: false,
            is_deadly: false,
            is_fragile: false,
        }
    }

    /// The player's ball: dynamic, and neither erasable nor bindable.
    pub fn player() -> (r: Flags)
        ensures
            r == (Flags {
                is_erasable: false,
                is_bindable: false,
                is_static: false,
                is_deadly: false,
                is_fragile: false,
            }),
    {
        Flags {
            is_erasable: false,
            is_bindable: false,
            is_static: false,
            is_deadly: false,
            is_fragile: false,
        }
    }

    /// A shape of the level itself, which the player cannot erase.
    pub fn level(is_static: bool, is_bindable: bool, is_deadly: bool, is_fragile: bool) -> (r:
        Flags)
        ensures
            r == (Flags { is_erasable: false, is_bindable, is_static, is_deadly, is_fragile }),
    {
        Flags { is_erasable: false, is_bindable, is_static, is_deadly, is_fragile }
    }
}

/// The variant of an entity's shape, which decides the list it is drawn
/// from.
#[derive(Clone, Copy, Debug, PartialEq, Eq, Structural)]
pub enum ShapeKind {
    Circle,
    Polygon,
}

/// A completed binding of `B` to the entity `partner`.
pub struct Bond<B> {
    pub binding: B,
    pub partner: EntityId,
}

/// One simulated object: its flags, the anchors `A` it holds that still wait
/// for a partner, and its completed bindings.
pub struct Entity<A, B> {
    pub id: EntityId,
    pub shape: ShapeKind,
    pub flags: Flags,
    pub pending: Vec<A>,
    pub bonds: Vec<Bond<B>>,
}

/// Identifiers strictly increase along the sequence and stay below `next_id`,
/// and every bond names an entity declared after its owner.
pub open spec fn well_ordered<A, B>(es: Seq<Entity<A, B>>, next_id: u64) -> bool {
    &&& forall|i: int, j: int| 0 <= i < j < es.len() ==> es[i].id.0 < es[j].id.0
    &&& forall|i: int| 0 <= i < es.len() ==> #[trigger] es[i].id.0 < next_id
    &&& forall|i: int, b: int|
        0 <= i < es.len() && 0 <= b < es[i].bonds@.len() ==> es[i].id.0
            < #[trigger] es[i].bonds@[b].partner.0
}

/// The items of `s.take(n)` whose mark in `marks` is off, in order.
pub open spec fn unmarked_prefix<T>(s: Seq<T>, marks: Seq<bool>, n: nat) -> Seq<T>
    decreases n,
{
    if n == 0 {
        seq![]
    } else {
        let rest = unmarked_prefix(s, marks, (n - 1) as nat);
        if marks[n - 1] {
            rest
        } else {
            rest.push(s[n - 1])
        }
    }
}

/// The items of `s` whose mark in `marks` is off, in order.
pub open spec fn unmarked<T>(s: Seq<T>, marks: Seq<bool>) -> Seq<T> {
    unmarked_prefix(s, marks, s.len())
}

/// Every item that survives a filter stood at some earlier index of the input.
proof fn lemma_unmarked_members<T>(s: Seq<T>, marks: Seq<bool>, n: nat)
    requires
        n <= s.len(),
    ensures
        forall|x: int|
            0 <= x < unmarked_prefix(s, marks, n).len() ==> exists|i: int|
                x <= i < n && #[trigger] unmarked_prefix(s, marks, n)[x] == s[i],
        unmarked_prefix(s, marks, n).len() <= n,
    decreases n,
{
    if n > 0 {
        lemma_unmarked_members(s, marks, (n - 1) as nat);
        let rest = unmarked_prefix(s, marks, (n - 1) as nat);
        let out = unmarked_prefix(s, marks, n);
        assert forall|x: int| 0 <= x < out.len() implies exists|i: int|
            x <= i < n && #[trigger] out[x] == s[i] by {
            if x < rest.len() {
                assert(out[x] == rest[x]);
                let i = choose|i: int| x <= i < n - 1 && rest[x] == s[i];
                assert(x <= i < n && out[x] == s[i]);
            } else {
                assert(out[x] == s[n - 1]);
            }
        }
    }
}

/// Filtering keeps the registry's ordering.
proof fn lemma_unmarked_well_ordered<A, B>(
    es: Seq<Entity<A, B>>,
    marks: Seq<bool>,
    n: nat,
    next_id: u64,
)
    requires
        n <= es.len(),
        well_ordered(es, next_id),
    ensures
        well_ordered(unmarked_prefix(es, marks, n), next_id),
        forall|x: int|
            0 <= x < unmarked_prefix(es, marks, n).len() ==> exists|i: int|
                0 <= i < n && #[trigger] unmarked_prefix(es, marks, n)[x] == es[i],
    decreases n,
{
    lemma_unmarked_members(es, marks, n);
    let out = unmarked_prefix(es, marks, n);
    assert forall|x: int| 0 <= x < out.len() implies exists|i: int|
        0 <= i < n && #[trigger] out[x] == es[i] by {
        let i = choose|i: int| x <= i < n && out[x] == es[i];
        assert(0 <= i < n && out[x] == es[i]);
    }
    if n > 0 {
        lemma_unmarked_well_ordered(es, marks, (n - 1) as nat, next_id);
        let rest = unmarked_prefix(es, marks, (n - 1) as nat);
        if !marks[n - 1] {
            assert forall|i: int, j: int| 0 <= i < j < out.len() implies out[i].id.0
                < out[j].id.0 by {
                if j < rest.len() {
                    assert(out[i] == rest[i] && out[j] == rest[j]);
                } else {
                    assert(out[i] == rest[i]);
                    let k = choose|k: int| 0 <= k < n - 1 && #[trigger] rest[i] == es[k];
                    assert(out[j] == es[n - 1]);
                }
            }
            assert forall|i: int| 0 <= i < out.len() implies #[trigger] out[i].id.0
                < next_id by {
                let k = choose|k: int| 0 <= k < n && #[trigger] out[i] == es[k];
            }
            assert forall|i: int, b: int|
                0 <= i < out.len() && 0 <= b < out[i].bonds@.len() implies out[i].id.0
                < #[trigger] out[i].bonds@[b].partner.0 by {
                let k = choose|k: int| 0 <= k < n && #[trigger] out[i] == es[k];
                assert(es[k].bonds@[b] == out[i].bonds@[b]);
            }
        }
    }
}

/// Removes the items whose mark is on and keeps the others in order.
pub fn keep_unmarked<T>(items: Vec<T>, marks: &Vec<bool>) -> (r: Vec<T>)
    requires
        marks@.len() == items@.len(),
    ensures
        r@ == unmarked(items@, marks@),
{
    let ghost orig = items@;
    let n = items.len();
    let mut rest = items;
    let mut out: Vec<T> = Vec::new();
    let mut k: usize = 0;
    while k < n
        invariant
            n == orig.len(),
            marks@.len() == n,
            k <= n,
            rest@ == orig.skip(k as int),
            out@ == unmarked_prefix(orig, marks@, k as nat),
        decreases n - k,
    {
        let item = rest.remove(0);
        assert(rest@ =~= orig.skip(k + 1));
        if !marks[k] {
            out.push(item);
        }
        k = k + 1;
    }
    out
}

/// The anchors among the first `n` whose attempt came back empty: those still
/// wait for a partner, in order.
pub open spec fn still_pending<A, B>(anchors: Seq<A>, results: Seq<Option<B>>, n: nat) -> Seq<A>
    decreases n,
{
    if n == 0 {
        seq![]
    } else {
        let rest = still_pending(anchors, results, (n - 1) as nat);
        if results[n - 1].is_some() {
            rest
        } else {
            rest.push(anchors[n - 1])
        }
    }
}

/// The bindings that the first `n` attempts produced, each with `partner`,
/// in order.
pub open spec fn completed<B>(results: Seq<Option<B>>, partner: EntityId, n: nat) -> Seq<Bond<B>>
    decreases n,
{
    if n == 0 {
        seq![]
    } else {
        let rest = completed(results, partner, (n - 1) as nat);
        if results[n - 1].is_some() {
            rest.push(Bond { binding: results[n - 1].unwrap(), partner })
        } else {
            rest
        }
    }
}

proof fn lemma_completed_partner<B>(results: Seq<Option<B>>, partner: EntityId, n: nat)
    ensures
        forall|b: int|
            0 <= b < completed(results, partner, n).len() ==> #[trigger] completed(
                results,
                partner,
                n,
            )[b].partner == partner,
    decreases n,
{
    if n > 0 {
        lemma_completed_partner(results, partner, (n - 1) as nat);
        let rest = completed(results, partner, (n - 1) as nat);
        let all = completed(results, partner, n);
        assert forall|b: int| 0 <= b < all.len() implies #[trigger] all[b].partner == partner by {
            if b < rest.len() {
                assert(all[b] == rest[b]);
            }
        }
    }
}

/// The entities of a simulation, in declaration order.
pub struct World<A, B> {
    entities: Vec<Entity<A, B>>,
    next_id: u64,
}

impl<A, B> View for World<A, B> {
    type V = Seq<Entity<A, B>>;

    /// The entities, in declaration order.
    closed spec fn view(&self) -> Seq<Entity<A, B>> {
        self.entities@
    }
}

impl<A, B> World<A, B> {
    /// The identifier the next added entity gets.
    pub closed spec fn next_id(&self) -> u64 {
        self.next_id
    }

    pub open spec fn wf(&self) -> bool {
        well_ordered(self@, self.next_id())
    }

    /// Whether another entity can still be given a fresh identifier.
    pub open spec fn can_add(&self) -> bool {
        self.next_id() < u64::MAX
    }

    pub fn new() -> (r: Self)
        ensures
            r.wf(),
            r@.len() == 0,
            r.next_id() == 0,
    {
        World { entities: Vec::new(), next_id: 0 }
    }

    /// Read access to the entities.
    pub fn entities(&self) -> (r: &Vec<Entity<A, B>>)
        ensures
            r@ == self@,
    {
        &self.entities
    }

    pub fn len(&self) -> (r: usize)
        ensures
            r == self@.len(),
    {
        self.entities.len()
    }

    /// Appends a new entity with no anchors and no bindings, and returns its
    /// identifier, which is larger than that of every entity before it.
    pub fn add(&mut self, shape: ShapeKind, flags: Flags) -> (id: EntityId)
        requires
            old(self).wf(),
            old(self).can_add(),
        ensures
            final(self).wf(),
            final(self)@.len() == old(self)@.len() + 1,
            final(self)@.take(old(self)@.len() as int) == old(self)@,
            final(self)@.last().id == id,
            final(self)@.last().shape == shape,
            final(self)@.last().flags == flags,
            final(self)@.last().pending@.len() == 0,
            final(self)@.last().bonds@.len() == 0,
            forall|i: int|
                0 <= i < old(self)@.len() ==> #[trigger] old(self)@[i].id.0 < id.0,
            final(self).next_id() == old(self).next_id() + 1,
    {
        let id = EntityId(self.next_id);
        let fresh = Entity { id, shape, flags, pending: Vec::new(), bonds: Vec::new() };
        let ghost fresh_bonds = fresh.bonds@;
        assert(fresh_bonds.len() == 0);
        self.entities.push(fresh);
        self.next_id = self.next_id + 1;
        assert(self.entities@.take(self.entities@.len() - 1) =~= old(self).entities@);
        assert forall|i: int, b: int|
            0 <= i < self.entities@.len() && 0 <= b < self.entities@[i].bonds@.len() implies
            self.entities@[i].id.0 < #[trigger] self.entities@[i].bonds@[b].partner.0 by {
            if i < old(self).entities@.len() {
                assert(self.entities@[i] == old(self).entities@[i]);
            } else {
                assert(self.entities@[i].bonds@ == fresh_bonds);
            }
        }
        assert forall|i: int, j: int| 0 <= i < j < self.entities@.len() implies self.entities@[i].id.0
            < self.entities@[j].id.0 by {
            assert(self.entities@[i] == old(self).entities@[i]);
            if j < old(self).entities@.len() {
                assert(self.entities@[j] == old(self).entities@[j]);
            }
        }
        assert forall|i: int| 0 <= i < self.entities@.len() implies #[trigger] self.entities@[i].id.0
            < self.next_id by {
            if i < old(self).entities@.len() {
                assert(self.entities@[i] == old(self)@[i]);
                assert(old(self)@[i].id.0 < old(self).next_id);
            } else {
                assert(self.entities@[i].id == id);
            }
        }
        id
    }

    /// Where the entity `id` stands, if it is still alive.
    pub fn position(&self, id: EntityId) -> (r: Option<usize>)
        requires
            self.wf(),
        ensures
            r.is_some() <==> exists|i: int|
                0 <= i < self@.len() && #[trigger] self@[i].id == id,
            r.is_some() ==> r.unwrap() < self@.len() && self@[r.unwrap() as int].id
                == id,
    {
        let mut i: usize = 0;
        while i < self.entities.len()
            invariant
                i <= self.entities@.len(),
                forall|k: int| 0 <= k < i ==> #[trigger] self.entities@[k].id != id,
            decreases self.entities@.len() - i,
        {
            if self.entities[i].id.0 == id.0 {
                assert(self@[i as int].id == id);
                assert(exists|k: int| 0 <= k < self@.len() && #[trigger] self@[k].id == id);
                return Some(i);
            }
            i = i + 1;
        }
        None
    }

    /// Removes the entities whose mark is on; the others keep their order.
    /// Bindings that named a removed entity expire with it.
    pub fn retire(&mut self, marks: &Vec<bool>)
        requires
            old(self).wf(),
            marks@.len() == old(self)@.len(),
        ensures
            final(self).wf(),
            final(self)@ == unmarked(old(self)@, marks@),
            final(self).next_id() == old(self).next_id(),
    {
        let mut taken: Vec<Entity<A, B>> = Vec::new();
        std::mem::swap(&mut taken, &mut self.entities);
        let kept = keep_unmarked(taken, marks);
        self.entities = kept;
        proof {
            lemma_unmarked_well_ordered(
                old(self)@,
                marks@,
                old(self)@.len(),
                self.next_id,
            );
        }
    }

    /// Whether entity `k` covers the point (`covers[k]`) and its flags allow
    /// erasing it (`for_erasing`) or anchoring on it.
    pub open spec fn qualifies(&self, covers: Seq<bool>, k: int, for_erasing: bool) -> bool {
        &&& covers[k]
        &&& if for_erasing {
            self@[k].flags.is_erasable
        } else {
            self@[k].flags.is_bindable
        }
    }

    /// `k` is the first entity in declaration order that qualifies.
    pub open spec fn is_first_qualifying(&self, covers: Seq<bool>, k: int, for_erasing: bool) -> bool {
        &&& 0 <= k < self@.len()
        &&& self.qualifies(covers, k, for_erasing)
        &&& forall|m: int| 0 <= m < k ==> !#[trigger] self.qualifies(covers, m, for_erasing)
    }

    fn first_qualifying(&self, covers: &Vec<bool>, for_erasing: bool) -> (r: Option<usize>)
        requires
            covers@.len() == self@.len(),
        ensures
            r.is_none() <==> forall|k: int|
                0 <= k < self@.len() ==> !#[trigger] self.qualifies(covers@, k, for_erasing),
            r.is_some() ==> self.is_first_qualifying(covers@, r.unwrap() as int, for_erasing),
    {
        let mut i: usize = 0;
        while i < self.entities.len()
            invariant
                i <= self@.len(),
                covers@.len() == self@.len(),
                forall|m: int| 0 <= m < i ==> !#[trigger] self.qualifies(covers@, m, for_erasing),
            decreases self@.len() - i,
        {
            let flags = self.entities[i].flags;
            let allowed = if for_erasing {
                flags.is_erasable
            } else {
                flags.is_bindable
            };
            if covers[i] && allowed {
                assert(self.qualifies(covers@, i as int, for_erasing));
                return Some(i);
            }
            i = i + 1;
        }
        None
    }

    /// Erases the first entity, in declaration order, that covers the point
    /// and may be erased, and says which one that was; entities that cover
    /// the point but may not be erased are passed over. `covers[k]` tells
    /// whether entity `k` covers the point.
    pub fn erase_at(&mut self, covers: &Vec<bool>) -> (r: Option<usize>)
        requires
            old(self).wf(),
            covers@.len() == old(self)@.len(),
        ensures
            final(self).wf(),
            final(self).next_id() == old(self).next_id(),
            r.is_none() <==> forall|k: int|
                0 <= k < old(self)@.len() ==> !#[trigger] old(self).qualifies(covers@, k, true),
            r.is_some() ==> old(self).is_first_qualifying(covers@, r.unwrap() as int, true)
                && final(self)@ == old(self)@.remove(r.unwrap() as int),
            r.is_none() ==> final(self)@ == old(self)@,
    {
        let r = self.first_qualifying(covers, true);
        match r {
            Some(k) => {
                let _gone = self.remove_at(k);
            },
            None => {},
        }
        r
    }

    /// Removes entity `k`; the others keep their order. Bindings that named it
    /// expire with it.
    pub fn remove_at(&mut self, k: usize) -> (r: Entity<A, B>)
        requires
            old(self).wf(),
            k < old(self)@.len(),
        ensures
            final(self).wf(),
            final(self).next_id() == old(self).next_id(),
            final(self)@ == old(self)@.remove(k as int),
            r == old(self)@[k as int],
    {
        let ghost before = self.entities@;
        let gone = self.entities.remove(k);
        assert forall|i: int, j: int|
            0 <= i < j < self.entities@.len() implies self.entities@[i].id.0
            < self.entities@[j].id.0 by {
            let oi = if i < k {
                i
            } else {
                i + 1
            };
            let oj = if j < k {
                j
            } else {
                j + 1
            };
            assert(self.entities@[i] == before[oi] && self.entities@[j] == before[oj]);
        }
        assert forall|i: int| 0 <= i < self.entities@.len() implies #[trigger] self.entities@[i].id.0
            < self.next_id by {
            let oi = if i < k {
                i
            } else {
                i + 1
            };
            assert(self.entities@[i] == before[oi]);
        }
        assert forall|i: int, b: int|
            0 <= i < self.entities@.len() && 0 <= b < self.entities@[i].bonds@.len()
            implies self.entities@[i].id.0
            < #[trigger] self.entities@[i].bonds@[b].partner.0 by {
            let oi = if i < k {
                i
            } else {
                i + 1
            };
            assert(self.entities@[i] == before[oi]);
        }
        gone
    }

    /// The entity that a new anchor at a point goes to: the first one, in
    /// declaration order, that covers the point and is bindable.
    pub fn anchor_target(&self, covers: &Vec<bool>) -> (r: Option<usize>)
        requires
            covers@.len() == self@.len(),
        ensures
            r.is_none() <==> forall|k: int|
                0 <= k < self@.len() ==> !#[trigger] self.qualifies(covers@, k, false),
            r.is_some() ==> self.is_first_qualifying(covers@, r.unwrap() as int, false),
    {
        self.first_qualifying(covers, false)
    }

    /// Gives entity `i` one more anchor that waits for a partner.
    pub fn add_pending(&mut self, i: usize, anchor: A)
        requires
            old(self).wf(),
            i < old(self)@.len(),
        ensures
            final(self).wf(),
            final(self).next_id() == old(self).next_id(),
            final(self)@.len() == old(self)@.len(),
            forall|k: int| 0 <= k < old(self)@.len() && k != i ==> #[trigger] final(self)@[k] == old(self)@[k],
            final(self)@[i as int].id == old(self)@[i as int].id,
            final(self)@[i as int].shape == old(self)@[i as int].shape,
            final(self)@[i as int].flags == old(self)@[i as int].flags,
            final(self)@[i as int].bonds@ == old(self)@[i as int].bonds@,
            final(self)@[i as int].pending@ == old(self)@[i as int].pending@.push(anchor),
    {
        let ghost before = self.entities@;
        let mut e = self.entities.remove(i);
        e.pending.push(anchor);
        self.entities.insert(i, e);
        assert forall|k: int| 0 <= k < before.len() && k != i implies #[trigger] self.entities@[k] == before[k] by {}
        assert forall|a: int, b: int|
            0 <= a < b < self.entities@.len() implies self.entities@[a].id.0 < self.entities@[b].id.0 by {
            assert(self.entities@[a].id == before[a].id && self.entities@[b].id == before[b].id);
        }
        assert forall|a: int| 0 <= a < self.entities@.len() implies #[trigger] self.entities@[a].id.0
            < self.next_id by {
            assert(self.entities@[a].id == before[a].id);
        }
        assert forall|a: int, b: int|
            0 <= a < self.entities@.len() && 0 <= b < self.entities@[a].bonds@.len() implies self.entities@[a].id.0
            < #[trigger] self.entities@[a].bonds@[b].partner.0 by {
            assert(self.entities@[a].id == before[a].id && self.entities@[a].bonds@ == before[a].bonds@);
        }
    }

    /// Settles the anchors of entity `i` against the newly added entity
    /// `partner`: `results[k]` is what binding anchor `k` to it gave. Each
    /// anchor that gave a binding leaves the waiting list, and the binding is
    /// appended, in anchor order, to the entity's bonds with `partner`; the
    /// other anchors keep waiting, in order.
    pub fn settle(&mut self, i: usize, results: Vec<Option<B>>, partner: EntityId)
        requires
            old(self).wf(),
            i < old(self)@.len(),
            results@.len() == old(self)@[i as int].pending@.len(),
            old(self)@[i as int].id.0 < partner.0,
        ensures
            final(self).wf(),
            final(self).next_id() == old(self).next_id(),
            final(self)@.len() == old(self)@.len(),
            forall|k: int| 0 <= k < old(self)@.len() && k != i ==> #[trigger] final(self)@[k] == old(self)@[k],
            final(self)@[i as int].id == old(self)@[i as int].id,
            final(self)@[i as int].shape == old(self)@[i as int].shape,
            final(self)@[i as int].flags == old(self)@[i as int].flags,
            final(self)@[i as int].pending@ == still_pending(
                old(self)@[i as int].pending@,
                results@,
                results@.len(),
            ),
            final(self)@[i as int].bonds@ == old(self)@[i as int].bonds@ + completed(
                results@,
                partner,
                results@.len(),
            ),
    {
        let ghost before = self.entities@;
        let mut e = self.entities.remove(i);
        let ghost old_bonds = e.bonds@;
        let mut anchors: Vec<A> = Vec::new();
        std::mem::swap(&mut anchors, &mut e.pending);
        let ghost orig = anchors@;
        let ghost orig_results = results@;
        let n = results.len();
        let mut results = results;
        let mut k: usize = 0;
        proof {
            lemma_completed_partner(orig_results, partner, 0);
        }
        while k < n
            invariant
                n == orig.len(),
                n == orig_results.len(),
                k <= n,
                anchors@ == orig.skip(k as int),
                results@ == orig_results.skip(k as int),
                e.pending@ == still_pending(orig, orig_results, k as nat),
                e.bonds@ == old_bonds + completed(orig_results, partner, k as nat),
                e.id == before[i as int].id,
                e.shape == before[i as int].shape,
                e.flags == before[i as int].flags,
            decreases n - k,
        {
            let anchor = anchors.remove(0);
            let outcome = results.remove(0);
            assert(anchors@ =~= orig.skip(k + 1));
            assert(results@ =~= orig_results.skip(k + 1));
            match outcome {
                Some(binding) => {
                    e.bonds.push(Bond { binding, partner });
                    assert(e.bonds@ =~= old_bonds + completed(orig_results, partner, (k + 1) as nat));
                },
                None => {
                    e.pending.push(anchor);
                    assert(e.bonds@ =~= old_bonds + completed(orig_results, partner, (k + 1) as nat));
                },
            }
            k = k + 1;
        }
        proof {
            lemma_completed_partner(orig_results, partner, n as nat);
            assert forall|b: int| 0 <= b < e.bonds@.len() implies e.id.0
                < #[trigger] e.bonds@[b].partner.0 by {
                if b < old_bonds.len() {
                    assert(e.bonds@[b] == before[i as int].bonds@[b]);
                } else {
                    assert(e.bonds@[b] == completed(orig_results, partner, n as nat)[b - old_bonds.len()]);
                }
            }
        }
        self.entities.insert(i, e);
        assert forall|k: int| 0 <= k < before.len() && k != i implies #[trigger] self.entities@[k] == before[k] by {}
        assert forall|a: int, b: int|
            0 <= a < b < self.entities@.len() implies self.entities@[a].id.0 < self.entities@[b].id.0 by {
            assert(self.entities@[a].id == before[a].id && self.entities@[b].id == before[b].id);
        }
        assert forall|a: int| 0 <= a < self.entities@.len() implies #[trigger] self.entities@[a].id.0
            < self.next_id by {
            assert(self.entities@[a].id == before[a].id);
        }
        assert forall|a: int, b: int|
            0 <= a < self.entities@.len() && 0 <= b < self.entities@[a].bonds@.len() implies self.entities@[a].id.0
            < #[trigger] self.entities@[a].bonds@[b].partner.0 by {
            if a != i {
                assert(self.entities@[a] == before[a]);
            }
        }
    }

    /// The positions of the entities whose shape is `shape`, in declaration
    /// order: the lists that a snapshot draws circles and polygons from.
    pub fn positions_of(&self, shape: ShapeKind) -> (r: Vec<usize>)
        ensures
            forall|k: int| 0 <= k < r@.len() ==> #[trigger] r@[k] < self@.len() && self@[r@[k] as int].shape == shape,
            forall|k: int, l: int| 0 <= k < l < r@.len() ==> #[trigger] r@[k] < #[trigger] r@[l],
            forall|p: int| 0 <= p < self@.len() && #[trigger] self@[p].shape == shape ==> exists|k: int|
                0 <= k < r@.len() && #[trigger] r@[k] == p,
    {
        let mut r: Vec<usize> = Vec::new();
        let mut p: usize = 0;
        while p < self.entities.len()
            invariant
                p <= self@.len(),
                forall|k: int| 0 <= k < r@.len() ==> #[trigger] r@[k] < p && self@[r@[k] as int].shape == shape,
                forall|k: int, l: int| 0 <= k < l < r@.len() ==> #[trigger] r@[k] < #[trigger] r@[l],
                forall|q: int| 0 <= q < p && #[trigger] self@[q].shape == shape ==> exists|k: int|
                    0 <= k < r@.len() && #[trigger] r@[k] == q,
            decreases self@.len() - p,
        {
            if self.entities[p].shape == shape {
                let ghost before = r@;
                r.push(p);
                assert forall|q: int| 0 <= q < p + 1 && #[trigger] self@[q].shape == shape implies exists|k: int|
                    0 <= k < r@.len() && #[trigger] r@[k] == q by {
                    if q == p {
                        assert(r@[before.len() as int] == q);
                    } else {
                        let k = choose|k: int| 0 <= k < before.len() && #[trigger] before[k] == q;
                        assert(r@[k] == before[k]);
                    }
                }
            }
            p = p + 1;
        }
        r
    }
}

} // verus!
