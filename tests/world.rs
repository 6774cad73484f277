use puzzle_physics::tick::{out_of_play, plan_tick, CollisionType, Link};
use puzzle_physics::world::{keep_unmarked, EntityId, Flags, ShapeKind, World};

fn level_with_player() -> World<&'static str, u32> {
    let mut w = World::new();
    w.add(ShapeKind::Circle, Flags::player());
    w
}

#[test]
fn erase_at_removes_only_the_erasable_entity() {
    let mut w = level_with_player();
    w.add(ShapeKind::Polygon, Flags::level(true, false, false, false));
    let drawn = w.add(ShapeKind::Polygon, Flags::drawn());
    // the point lies on the static level shape and on the drawn shape
    let hit = w.erase_at(&vec![false, true, true]);
    assert_eq!(hit, Some(2));
    assert_eq!(w.len(), 2);
    assert!(w.position(drawn).is_none());
    assert!(w.entities()[1].flags.is_static);
}

#[test]
fn erase_at_with_nothing_erasable_changes_nothing() {
    let mut w = level_with_player();
    w.add(ShapeKind::Polygon, Flags::level(true, true, false, false));
    assert_eq!(w.erase_at(&vec![true, true]), None);
    assert_eq!(w.len(), 2);
    w.add(ShapeKind::Circle, Flags::drawn());
    assert_eq!(w.erase_at(&vec![true, true, false]), None);
    assert_eq!(w.len(), 3);
}

#[test]
fn anchors_go_to_the_first_bindable_entity() {
    let mut w = level_with_player();
    w.add(ShapeKind::Polygon, Flags::level(true, false, false, false));
    w.add(ShapeKind::Polygon, Flags::level(true, true, false, false));
    w.add(ShapeKind::Circle, Flags::drawn());
    assert_eq!(w.anchor_target(&vec![true, true, true, true]), Some(2));
    assert_eq!(w.anchor_target(&vec![true, true, false, true]), Some(3));
    assert_eq!(w.anchor_target(&vec![true, true, false, false]), None);
}

#[test]
fn pending_anchor_binds_to_new_partner() {
    let mut w = level_with_player();
    w.add(ShapeKind::Polygon, Flags::drawn());
    // a rigid anchor on a spot that overlaps nothing waits for a partner
    w.add_pending(1, "rigid");
    assert_eq!(w.entities()[1].pending, vec!["rigid"]);
    assert!(w.entities()[1].bonds.is_empty());
    // a new shape is drawn over the anchor
    let b = w.add(ShapeKind::Polygon, Flags::drawn());
    w.settle(1, vec![Some(40)], b);
    assert!(w.entities()[1].pending.is_empty());
    assert_eq!(w.entities()[1].bonds.len(), 1);
    assert_eq!(w.entities()[1].bonds[0].binding, 40);
    assert_eq!(w.entities()[1].bonds[0].partner, b);
    assert_eq!(w.links(), vec![Link { owner: 1, bond: 0, partner: 2 }]);
}

#[test]
fn settle_keeps_anchors_that_miss_in_order() {
    let mut w = level_with_player();
    w.add(ShapeKind::Polygon, Flags::drawn());
    w.add_pending(1, "a");
    w.add_pending(1, "b");
    w.add_pending(1, "c");
    let b = w.add(ShapeKind::Circle, Flags::drawn());
    w.settle(1, vec![None, Some(7), None], b);
    assert_eq!(w.entities()[1].pending, vec!["a", "c"]);
    assert_eq!(w.entities()[1].bonds.len(), 1);
    assert_eq!(w.entities()[1].bonds[0].binding, 7);
}

#[test]
fn bindings_expire_with_their_partner() {
    let mut w = level_with_player();
    w.add(ShapeKind::Polygon, Flags::drawn());
    w.add_pending(1, "hinge");
    let partner = w.add(ShapeKind::Polygon, Flags::drawn());
    w.settle(1, vec![Some(1)], partner);
    let other = w.add(ShapeKind::Circle, Flags::drawn());
    w.add_pending(1, "hinge");
    w.settle(1, vec![Some(2)], other);
    assert_eq!(
        w.links(),
        vec![Link { owner: 1, bond: 0, partner: 2 }, Link { owner: 1, bond: 1, partner: 3 }]
    );
    assert_eq!(w.erase_at(&vec![false, false, true, false]), Some(2));
    assert_eq!(w.links(), vec![Link { owner: 1, bond: 1, partner: 2 }]);
}

#[test]
fn identifiers_are_never_reused() {
    let mut w = level_with_player();
    let a = w.add(ShapeKind::Polygon, Flags::drawn());
    assert_eq!(w.erase_at(&vec![false, true]), Some(1));
    let b = w.add(ShapeKind::Polygon, Flags::drawn());
    assert_ne!(a, b);
    assert!(b.0 > a.0);
    assert_eq!(w.position(a), None);
    assert_eq!(w.position(b), Some(1));
    assert_eq!(w.position(EntityId(99)), None);
}

#[test]
fn collision_pairs_skip_two_static_entities() {
    let mut w = level_with_player();
    w.add(ShapeKind::Polygon, Flags::level(true, false, false, false));
    w.add(ShapeKind::Polygon, Flags::level(true, false, false, false));
    w.add(ShapeKind::Circle, Flags::drawn());
    assert_eq!(w.collision_pairs(), vec![(0, 1), (0, 2), (0, 3), (1, 3), (2, 3)]);
}

#[test]
fn collision_pairs_of_empty_and_single_worlds() {
    let w: World<u8, u8> = World::new();
    assert!(w.collision_pairs().is_empty());
    assert!(level_with_player().collision_pairs().is_empty());
}

#[test]
fn tally_dooms_fragile_entities_hit_hard_once() {
    let mut w = level_with_player();
    w.add(ShapeKind::Polygon, Flags::level(true, false, false, true));
    w.add(ShapeKind::Polygon, Flags::drawn());
    w.add(ShapeKind::Polygon, Flags::level(false, false, false, true));
    let pairs = w.collision_pairs();
    assert_eq!(pairs, vec![(0, 1), (0, 2), (0, 3), (1, 2), (1, 3), (2, 3)]);
    let impacts = vec![
        CollisionType::Missed,
        CollisionType::Missed,
        CollisionType::Weak,
        CollisionType::Strong,
        CollisionType::Strong,
        CollisionType::Weak,
    ];
    let t = w.tally(&pairs, &impacts);
    assert_eq!(t.doomed, vec![false, true, false, true]);
    assert!(!t.player_hit_deadly);
    assert!(t.player_landed);
}

#[test]
fn tally_player_touching_deadly_entity() {
    let mut w = level_with_player();
    w.add(ShapeKind::Polygon, Flags::level(true, false, true, false));
    let pairs = w.collision_pairs();
    let t = w.tally(&pairs, &vec![CollisionType::Strong]);
    assert!(t.player_hit_deadly);
    assert!(!t.player_landed);
    assert_eq!(t.doomed, vec![false, false]);
    let quiet = w.tally(&pairs, &vec![CollisionType::Missed]);
    assert!(!quiet.player_hit_deadly);
    assert!(!quiet.player_landed);
}

#[test]
fn retire_removes_marked_entities_in_order() {
    let mut w = level_with_player();
    let a = w.add(ShapeKind::Polygon, Flags::drawn());
    let b = w.add(ShapeKind::Circle, Flags::drawn());
    let c = w.add(ShapeKind::Polygon, Flags::drawn());
    w.retire(&vec![false, true, false, true]);
    assert_eq!(w.len(), 2);
    assert_eq!(w.position(a), None);
    assert_eq!(w.position(b), Some(1));
    assert_eq!(w.position(c), None);
}

#[test]
fn keep_unmarked_filters_in_order() {
    assert_eq!(keep_unmarked(vec![10, 20, 30, 40], &vec![true, false, true, false]), vec![20, 40]);
    assert_eq!(keep_unmarked(Vec::<u8>::new(), &vec![]), Vec::<u8>::new());
}

#[test]
fn the_player_never_falls_out_of_play() {
    assert_eq!(out_of_play(&vec![true, true, false]), vec![false, true, false]);
    assert_eq!(out_of_play(&vec![]), Vec::<bool>::new());
}

#[test]
fn full_snapshot_slot_skips_publishing() {
    let busy = plan_tick(false);
    assert!(busy.integrate && busy.collide && busy.enforce_bindings);
    assert!(!busy.publish);
    assert!(plan_tick(true).publish);
}

#[test]
fn positions_split_circles_and_polygons() {
    let mut w = level_with_player();
    w.add(ShapeKind::Polygon, Flags::drawn());
    w.add(ShapeKind::Circle, Flags::drawn());
    w.add(ShapeKind::Polygon, Flags::drawn());
    assert_eq!(w.positions_of(ShapeKind::Circle), vec![0, 2]);
    assert_eq!(w.positions_of(ShapeKind::Polygon), vec![1, 3]);
}

#[test]
fn remove_at_hands_back_the_entity() {
    let mut w = level_with_player();
    let a = w.add(ShapeKind::Polygon, Flags::drawn());
    let b = w.add(ShapeKind::Circle, Flags::level(true, false, true, false));
    let gone = w.remove_at(1);
    assert_eq!(gone.id, a);
    assert_eq!(w.len(), 2);
    assert_eq!(w.position(b), Some(1));
    assert!(w.entities()[1].flags.is_deadly);
}
