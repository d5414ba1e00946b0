use petrichor::enemy::{spawn_monster, EnemyPlugin};
use petrichor::events::{EventKind, EventType};
use petrichor::geometry::Vec3;
use petrichor::mesh::{collider_indices, is_collider_name, triangles, ColliderError, Primitive};
use petrichor::records::RecordKind;
use petrichor::registry::{ChannelRegistry, PetriReplicationSetupPlugin, RegistryError};
use petrichor::scheduler::{
    step, SchedulerAction, SchedulerEvent, SchedulerState, MAX_CLIENTS, MAX_TICK_RATE, PORT,
    PROTOCOL_ID, TICK_INTERVAL,
};
use petrichor::world::{Entity, World};

#[test]
fn channels_are_numbered_in_the_order_of_registration() {
    let r = PetriReplicationSetupPlugin::build();
    assert_eq!(r.len(), 10);
    assert_eq!(r.record_channel(RecordKind::Player), Some(0));
    assert_eq!(r.record_channel(RecordKind::Tint), Some(1));
    assert_eq!(r.record_channel(RecordKind::ReplicatedPos), Some(2));
    assert_eq!(r.record_channel(RecordKind::ReplicatedAim), Some(3));
    assert_eq!(r.record_channel(RecordKind::Appearance), Some(4));
    assert_eq!(r.record_channel(RecordKind::Name), Some(5));
    assert_eq!(r.event_channel(EventKind::AdminCommand), Some((6, EventType::Ordered)));
    assert_eq!(r.event_channel(EventKind::MoveDirection), Some((7, EventType::Ordered)));
    assert_eq!(r.event_channel(EventKind::SetName), Some((8, EventType::Ordered)));
    assert_eq!(r.event_channel(EventKind::Aim), Some((9, EventType::Unordered)));
}

#[test]
fn a_kind_is_registered_once() {
    let mut r = ChannelRegistry::new();
    assert_eq!(r.record_channel(RecordKind::Tint), None);
    assert_eq!(r.event_channel(EventKind::Aim), None);
    assert_eq!(r.register_event(EventKind::Aim, EventType::Unordered), Ok(0));
    assert_eq!(r.register_record(RecordKind::Tint), Ok(1));
    assert_eq!(r.register_record(RecordKind::Tint), Err(RegistryError::AlreadyRegistered));
    assert_eq!(
        r.register_event(EventKind::Aim, EventType::Ordered),
        Err(RegistryError::AlreadyRegistered)
    );
    assert_eq!(r.len(), 2);
    assert_eq!(r.event_channel(EventKind::Aim), Some((0, EventType::Unordered)));
    assert_eq!(r.register_record(RecordKind::Name), Ok(2));
}

#[test]
fn client_and_server_must_register_alike() {
    let server = PetriReplicationSetupPlugin::build();
    let client = PetriReplicationSetupPlugin::build();
    assert!(server.matches(&client));
    let mut swapped = ChannelRegistry::new();
    swapped.register_record(RecordKind::Tint).unwrap();
    swapped.register_record(RecordKind::Player).unwrap();
    let mut straight = ChannelRegistry::new();
    straight.register_record(RecordKind::Player).unwrap();
    straight.register_record(RecordKind::Tint).unwrap();
    assert!(!swapped.matches(&straight));
    assert!(!straight.matches(&server));
    let mut other_delivery = ChannelRegistry::new();
    other_delivery.register_event(EventKind::Aim, EventType::Ordered).unwrap();
    let mut delivery = ChannelRegistry::new();
    delivery.register_event(EventKind::Aim, EventType::Unordered).unwrap();
    assert!(!delivery.matches(&other_delivery));
    assert!(ChannelRegistry::new().matches(&ChannelRegistry::new()));
}

#[test]
fn a_handshake_compares_the_registries() {
    let server = PetriReplicationSetupPlugin::build();
    assert_eq!(server.to_bytes(), vec![0, 1, 2, 3, 4, 5, 16, 18, 20, 23]);
    assert!(server.agrees_with(&PetriReplicationSetupPlugin::build().to_bytes()));
    assert!(!server.agrees_with(&vec![0, 1, 2, 3, 4, 5, 16, 18, 20, 22]));
    assert!(!server.agrees_with(&vec![1, 0, 2, 3, 4, 5, 16, 18, 20, 23]));
    assert!(!server.agrees_with(&vec![0, 1, 2, 3, 4, 5, 16, 18, 20]));
    assert!(!server.agrees_with(&vec![]));
    assert!(ChannelRegistry::new().agrees_with(&vec![]));
    let mut other = ChannelRegistry::new();
    other.register_event(EventKind::MoveDirection, EventType::Unordered).unwrap();
    other.register_event(EventKind::AdminCommand, EventType::Unordered).unwrap();
    other.register_event(EventKind::SetName, EventType::Unordered).unwrap();
    other.register_event(EventKind::Aim, EventType::Ordered).unwrap();
    assert_eq!(other.to_bytes(), vec![19, 17, 21, 22]);
}

#[test]
fn the_scheduler_goes_from_start_to_shutdown() {
    let s = SchedulerState::Idle;
    assert_eq!(step(s, SchedulerEvent::Poll { now: 5 }), (s, SchedulerAction::Wait));
    let (s, a) = step(s, SchedulerEvent::Start);
    assert_eq!((s, a), (SchedulerState::Connecting, SchedulerAction::Bind));
    assert_eq!(step(s, SchedulerEvent::Start), (s, SchedulerAction::Wait));
    let (s, a) = step(s, SchedulerEvent::Bound);
    assert_eq!((s, a), (SchedulerState::Running { last_tick: None }, SchedulerAction::Wait));
    let (s, a) = step(s, SchedulerEvent::Poll { now: 100 });
    assert_eq!((s, a), (SchedulerState::Running { last_tick: Some(100) }, SchedulerAction::Tick));
    let (s, a) = step(s, SchedulerEvent::Stop);
    assert_eq!((s, a), (SchedulerState::ShuttingDown, SchedulerAction::Close));
    for e in [
        SchedulerEvent::Start,
        SchedulerEvent::Bound,
        SchedulerEvent::BindFailed,
        SchedulerEvent::Poll { now: 1_000_000 },
        SchedulerEvent::Stop,
    ] {
        assert_eq!(step(s, e), (SchedulerState::ShuttingDown, SchedulerAction::Wait));
    }
}

#[test]
fn a_failed_bind_is_fatal() {
    let (s, _) = step(SchedulerState::Idle, SchedulerEvent::Start);
    assert_eq!(
        step(s, SchedulerEvent::BindFailed),
        (SchedulerState::ShuttingDown, SchedulerAction::Abort)
    );
}

#[test]
fn the_tick_rate_is_capped() {
    let mut s = SchedulerState::Running { last_tick: Some(1_000) };
    assert_eq!(step(s, SchedulerEvent::Poll { now: 1_000 + 16_666 }).1, SchedulerAction::Wait);
    assert_eq!(step(s, SchedulerEvent::Poll { now: 1_000 + 16_667 }).1, SchedulerAction::Tick);
    assert_eq!(step(s, SchedulerEvent::Poll { now: 999 }).1, SchedulerAction::Wait);
    assert_eq!(step(s, SchedulerEvent::Poll { now: 0 }), (s, SchedulerAction::Wait));
    // polled every 5 ms for a second
    s = SchedulerState::Running { last_tick: None };
    let mut ticks = 0;
    let mut now = 0u64;
    while now <= 1_000_000 {
        let (next, action) = step(s, SchedulerEvent::Poll { now });
        if action == SchedulerAction::Tick {
            ticks += 1;
        }
        s = next;
        now += 5_000;
    }
    assert_eq!(ticks, 51);
    assert!(ticks <= MAX_TICK_RATE + 1);
    assert_eq!(TICK_INTERVAL, 16_667);
    assert_eq!((PORT, MAX_CLIENTS, PROTOCOL_ID), (8989, 10, 0));
}

#[test]
fn the_monster_is_a_pink_box() {
    let mut w = World::new();
    w.spawn(Vec3::zero(), petrichor::records::RecordSet::new());
    let m = EnemyPlugin::build(&mut w);
    assert_eq!(m, Entity(1));
    let d = w.get(m).unwrap();
    assert_eq!(d.records.name.as_deref(), Some("Monster"));
    assert_eq!(d.transform, Vec3::new(0, 10_000, 0));
    assert_eq!(spawn_monster(&mut w), Entity(2));
}

#[test]
fn collider_names() {
    assert!(is_collider_name("collider_floor"));
    assert!(is_collider_name("Collider_Wall"));
    assert!(is_collider_name("COLLIDER_"));
    assert!(!is_collider_name("collider"));
    assert!(!is_collider_name("xcollider_"));
    assert!(!is_collider_name("collider-floor"));
    assert!(!is_collider_name(""));
    assert!(!is_collider_name("çollider_"));
    assert!(!is_collider_name("colliderß"));
}

#[test]
fn index_lists_are_cut_into_triangles() {
    assert_eq!(triangles(&vec![]), Some(vec![]));
    assert_eq!(
        triangles(&vec![0, 1, 2, 2, 1, 65535]),
        Some(vec![[0, 1, 2], [2, 1, 65535]])
    );
    assert_eq!(triangles(&vec![0, 1]), None);
    assert_eq!(triangles(&vec![0, 1, 2, 3]), None);
}

#[test]
fn faces_that_make_no_collider() {
    assert_eq!(collider_indices(&vec![]), Ok(vec![]));
    assert_eq!(
        collider_indices(&vec![Primitive::Triangle(0, 1, 2), Primitive::Triangle(65535, 0, 7)]),
        Ok(vec![0, 1, 2, 65535, 0, 7])
    );
    assert_eq!(
        collider_indices(&vec![
            Primitive::Triangle(0, 1, 2),
            Primitive::Line(0, 1),
            Primitive::Triangle(0, 70000, 2),
        ]),
        Err(ColliderError::NotATriangle { face: 1 })
    );
    assert_eq!(
        collider_indices(&vec![Primitive::Triangle(0, 1, 65536), Primitive::Point(3)]),
        Err(ColliderError::IndexTooLarge { face: 0 })
    );
    assert_eq!(
        collider_indices(&vec![Primitive::Point(3)]),
        Err(ColliderError::NotATriangle { face: 0 })
    );
}
