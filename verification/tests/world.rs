use petrichor::geometry::Vec3;
use petrichor::records::{
    Appearance, Record, RecordKind, RecordSet, ReplicatedPos, ReplicationBundle, Tint,
};
use petrichor::world::{Entity, World};

fn plain() -> RecordSet {
    ReplicationBundle::new(Tint::green(), Appearance::Box).records()
}

#[test]
fn handles_are_given_out_in_order() {
    let mut w = World::new();
    assert_eq!(w.len(), 0);
    let a = w.spawn(Vec3::zero(), plain());
    let b = w.spawn(Vec3::zero(), plain());
    assert_eq!(a, Entity(0));
    assert_eq!(b, Entity(1));
    assert!(w.is_alive(a) && w.is_alive(b));
    assert!(!w.is_alive(Entity(2)));
    assert_eq!(w.len(), 2);
}

#[test]
fn despawn_takes_the_owned_entities_along() {
    let mut w = World::new();
    let player = w.spawn(Vec3::zero(), plain());
    let other = w.spawn(Vec3::zero(), plain());
    let rig = w.spawn_child(player, Vec3::zero(), RecordSet::new()).unwrap();
    let lens = w.spawn_child(rig, Vec3::zero(), RecordSet::new()).unwrap();
    let cart = w.spawn_child(other, Vec3::zero(), RecordSet::new()).unwrap();
    assert_eq!(w.despawn_recursive(player), 3);
    assert!(!w.is_alive(player));
    assert!(!w.is_alive(rig));
    assert!(!w.is_alive(lens));
    assert!(w.is_alive(other));
    assert!(w.is_alive(cart));
    assert_eq!(w.get(cart).unwrap().parent, Some(other));
}

#[test]
fn despawn_of_a_dead_handle_changes_nothing() {
    let mut w = World::new();
    let a = w.spawn(Vec3::zero(), plain());
    assert_eq!(w.despawn_recursive(Entity(17)), 0);
    assert_eq!(w.despawn_recursive(a), 1);
    assert_eq!(w.despawn_recursive(a), 0);
    assert_eq!(w.len(), 1);
    assert!(w.spawn_child(a, Vec3::zero(), RecordSet::new()).is_none());
    assert_eq!(w.len(), 1);
}

#[test]
fn a_handle_is_never_given_out_twice() {
    let mut w = World::new();
    let a = w.spawn(Vec3::zero(), plain());
    w.despawn_recursive(a);
    let b = w.spawn(Vec3::zero(), plain());
    assert_ne!(a, b);
    assert!(!w.is_alive(a));
}

#[test]
fn records_of_dead_entities_cannot_be_written() {
    let mut w = World::new();
    let a = w.spawn(Vec3::zero(), plain());
    assert!(w.insert_record(a, Record::Name(String::from("a"))));
    assert_eq!(w.get(a).unwrap().records.name.as_deref(), Some("a"));
    assert!(w.remove_record(a, RecordKind::Name));
    assert_eq!(w.get(a).unwrap().records.name, None);
    w.despawn_recursive(a);
    assert!(!w.insert_record(a, Record::Name(String::from("a"))));
    assert!(!w.remove_record(a, RecordKind::Tint));
    assert!(!w.set_transform(a, Vec3::zero()));
    assert!(w.get(a).is_none());
}

#[test]
fn positions_are_published_once_moved() {
    let mut w = World::new();
    let a = w.spawn(Vec3::new(1, 2, 3), plain());
    let bare = w.spawn(Vec3::new(9, 9, 9), RecordSet::new());
    assert!(w.get(a).unwrap().moved);
    w.update_player_pos();
    assert_eq!(w.get(a).unwrap().records.pos, Some(ReplicatedPos(Vec3::new(1, 2, 3))));
    assert!(!w.get(a).unwrap().moved);
    assert_eq!(w.get(bare).unwrap().records.pos, None);
    assert!(!w.get(bare).unwrap().moved);

    assert!(w.set_transform(a, Vec3::new(1, 2, 3)));
    assert!(!w.get(a).unwrap().moved);
    assert!(w.set_transform(a, Vec3::new(4, 5, 6)));
    assert!(w.get(a).unwrap().moved);
    assert_eq!(w.get(a).unwrap().records.pos, Some(ReplicatedPos(Vec3::new(1, 2, 3))));
    w.update_player_pos();
    assert_eq!(w.get(a).unwrap().records.pos, Some(ReplicatedPos(Vec3::new(4, 5, 6))));
}
