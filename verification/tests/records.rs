use petrichor::geometry::{saturate, Vec2, Vec3, UNIT};
use petrichor::records::{
    Appearance, Fraction, Player, Record, RecordKind, RecordSet, ReplicatedAim, ReplicatedPos,
    ReplicationBundle, Tint,
};

#[test]
fn tint_is_derived_from_the_client_id() {
    let t = Tint::for_client(100);
    assert_eq!(t.r, Fraction { num: 8, den: 23 });
    assert_eq!(t.g, Fraction { num: 19, den: 27 });
    assert_eq!(t.b, Fraction { num: 22, den: 39 });
    assert_eq!(Tint::for_client(100), t);
}

#[test]
fn tint_of_the_largest_client_id() {
    let t = Tint::for_client(u64::MAX);
    assert_eq!(t.r.num as u64, u64::MAX % 23);
    assert_eq!(t.g.num as u64, u64::MAX % 27);
    assert_eq!(t.b.num as u64, u64::MAX % 39);
}

#[test]
fn tints_of_neighbouring_clients_differ() {
    assert_ne!(Tint::for_client(1), Tint::for_client(2));
    assert_eq!(Tint::for_client(0).r.num, 0);
    assert_eq!(Tint::for_client(23 * 27 * 39), Tint::for_client(0));
}

#[test]
fn fixed_colours() {
    assert_eq!(Tint::green().g, Fraction { num: 1, den: 1 });
    assert_eq!(Tint::green().r, Fraction { num: 0, den: 1 });
    assert_eq!(Tint::pink().g, Fraction { num: 8, den: 100 });
    assert_eq!(Tint::pink().b, Fraction { num: 58, den: 100 });
    assert!(Tint::pink().same(&Tint::pink()));
    assert!(!Tint::pink().same(&Tint::green()));
}

#[test]
fn bundle_starts_at_origin_looking_ahead() {
    let b = ReplicationBundle::new(Tint::green(), Appearance::Box);
    assert_eq!(b.pos, ReplicatedPos(Vec3 { x: 0, y: 0, z: 0 }));
    assert_eq!(b.aim, ReplicatedAim(Vec3 { x: 0, y: 0, z: -UNIT }));
    let records = b.records();
    assert_eq!(records.tint, Some(Tint::green()));
    assert_eq!(records.appearance, Some(Appearance::Box));
    assert_eq!(records.player, None);
    assert_eq!(records.name, None);
}

#[test]
fn record_set_slots() {
    let mut s = RecordSet::new();
    assert!(s.get(RecordKind::Name).is_none());
    s.insert(Record::Name(String::from("ann")));
    s.insert(Record::Player(Player(7)));
    match s.get(RecordKind::Name) {
        Some(Record::Name(n)) => assert_eq!(n, "ann"),
        _ => panic!("name expected"),
    }
    assert_eq!(s.get(RecordKind::Player).map(|r| r.kind()), Some(RecordKind::Player));
    let copy = s.duplicate();
    assert!(s.same_slot(&copy, RecordKind::Name));
    s.insert(Record::Name(String::from("bob")));
    assert!(!s.same_slot(&copy, RecordKind::Name));
    assert!(s.same_slot(&copy, RecordKind::Player));
    s.remove(RecordKind::Player);
    assert_eq!(s.player, None);
    assert!(!s.same_slot(&copy, RecordKind::Player));
}

#[test]
fn offsets_count_whole_units_and_stop_at_the_range() {
    let at = Vec3::new(1500, -2000, 7);
    assert_eq!(at.offset_units(2, 3, 0), Vec3 { x: 3500, y: 1000, z: 7 });
    let far = Vec3::new(i32::MAX - 10, 0, i32::MAX);
    assert_eq!(far.offset_units(1, 0, 255), Vec3 { x: i32::MAX, y: 0, z: i32::MAX });
    assert_eq!(saturate(i64::MIN), i32::MIN);
    assert_eq!(saturate(-5), -5);
}

#[test]
fn vectors_compare_by_coordinates() {
    assert!(Vec3::zero().same(&Vec3::new(0, 0, 0)));
    assert!(!Vec3::zero().same(&Vec3::neg_z()));
    assert_eq!(Vec2::new(3, -4), Vec2 { x: 3, y: -4 });
}
