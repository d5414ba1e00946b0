use petrichor::client::{hydrate_entities, Hydrated, Hydration, Replica};
use petrichor::events::{FromClient, ServerEvent, SetName};
use petrichor::geometry::Vec3;
use petrichor::records::{
    Appearance, Player, Record, RecordKind, RecordSet, ReplicatedAim, ReplicatedPos,
    ReplicationBundle, Tint,
};
use petrichor::replication::{ReplicationTable, Update};
use petrichor::server::PetriServerPlugin;
use petrichor::world::{Entity, World};

fn assert_mirrors(replica: &Replica, world: &World) {
    for i in 0..world.len() + 3 {
        let e = Entity(i);
        match world.get(e) {
            Some(d) => {
                let got = replica.get(e).expect("the client lacks an entity of the world");
                for kind in [
                    RecordKind::Player,
                    RecordKind::Tint,
                    RecordKind::ReplicatedPos,
                    RecordKind::ReplicatedAim,
                    RecordKind::Appearance,
                    RecordKind::Name,
                ] {
                    assert!(got.same_slot(&d.records, kind), "entity {} kind {:?}", i, kind);
                }
            }
            None => assert!(!replica.contains(e), "the client holds a ghost: {}", i),
        }
    }
}

#[test]
fn updates_bring_a_client_up_to_date() {
    let mut w = World::new();
    let mut table = ReplicationTable::new();
    let mut client = Replica::new();
    let a = w.spawn(Vec3::zero(), ReplicationBundle::new(Tint::pink(), Appearance::Box).records());
    let b = w.spawn(Vec3::zero(), RecordSet::new());
    client.apply_all(&table.collect(&w));
    assert_mirrors(&client, &w);

    w.insert_record(a, Record::Name(String::from("a")));
    w.insert_record(b, Record::Pos(ReplicatedPos(Vec3::new(1, 2, 3))));
    w.remove_record(a, RecordKind::Tint);
    let c = w.spawn(Vec3::zero(), ReplicationBundle::new(Tint::green(), Appearance::Capsule).records());
    let updates = table.collect(&w);
    assert_eq!(updates.len(), 2 + 1 + 1 + 4);
    client.apply_all(&updates);
    assert_mirrors(&client, &w);

    w.despawn_recursive(b);
    w.insert_record(c, Record::Aim(ReplicatedAim(Vec3::new(0, 1000, 0))));
    client.apply_all(&table.collect(&w));
    assert_mirrors(&client, &w);
    assert!(!client.contains(b));
}

#[test]
fn only_what_changed_is_sent() {
    let mut w = World::new();
    let mut table = ReplicationTable::new();
    let a = w.spawn(Vec3::zero(), ReplicationBundle::new(Tint::pink(), Appearance::Box).records());
    table.collect(&w);
    w.insert_record(a, Record::Pos(ReplicatedPos(Vec3::new(5, 0, 0))));
    let updates = table.collect(&w);
    assert_eq!(updates.len(), 1);
    match &updates[0] {
        Update::Insert { entity, record: Record::Pos(p) } => {
            assert_eq!(*entity, a);
            assert_eq!(*p, ReplicatedPos(Vec3::new(5, 0, 0)));
        }
        other => panic!("unexpected update {:?}", other),
    }
    w.insert_record(a, Record::Pos(ReplicatedPos(Vec3::new(5, 0, 0))));
    assert!(table.collect(&w).is_empty());
}

#[test]
fn an_unchanged_world_sends_nothing_and_changes_nothing() {
    let mut w = World::new();
    let mut table = ReplicationTable::new();
    let mut client = Replica::new();
    w.spawn(Vec3::zero(), ReplicationBundle::new(Tint::pink(), Appearance::Box).records());
    w.spawn(Vec3::zero(), RecordSet::new());
    client.apply_all(&table.collect(&w));
    let again = table.collect(&w);
    assert!(again.is_empty());
    client.apply_all(&again);
    assert_mirrors(&client, &w);
}

#[test]
fn a_snapshot_sent_again_changes_nothing() {
    let mut w = World::new();
    let mut client = Replica::new();
    let a = w.spawn(Vec3::zero(), ReplicationBundle::new(Tint::pink(), Appearance::Box).records());
    w.insert_record(a, Record::Name(String::from("monster")));
    w.spawn(Vec3::zero(), RecordSet::new());
    let gone = w.spawn(Vec3::zero(), RecordSet::new());
    w.despawn_recursive(gone);
    let snapshot = ReplicationTable::snapshot(&w);
    assert_eq!(snapshot.len(), 1 + 5 + 1);
    client.apply_all(&snapshot);
    assert_mirrors(&client, &w);
    let added = client.apply_all(&snapshot);
    assert!(added.is_empty());
    assert_mirrors(&client, &w);
}

#[test]
fn a_marked_record_is_sent_again() {
    let mut w = World::new();
    let mut table = ReplicationTable::new();
    let mut client = Replica::new();
    let a = w.spawn(Vec3::zero(), ReplicationBundle::new(Tint::pink(), Appearance::Box).records());
    client.apply_all(&table.collect(&w));
    table.mark_dirty(a, RecordKind::Tint);
    table.mark_dirty(a, RecordKind::Name);
    table.mark_dirty(Entity(40), RecordKind::Tint);
    let updates = table.collect(&w);
    assert_eq!(updates.len(), 2);
    assert!(matches!(&updates[0], Update::Insert { record: Record::Tint(_), .. }));
    assert!(matches!(&updates[1], Update::Remove { kind: RecordKind::Name, .. }));
    client.apply_all(&updates);
    assert_mirrors(&client, &w);
    assert!(table.collect(&w).is_empty());
}

#[test]
fn updates_for_unknown_entities() {
    let mut client = Replica::new();
    let e = Entity(usize::MAX);
    assert!(!client.apply(&Update::Remove { entity: e, kind: RecordKind::Tint }));
    assert!(!client.contains(e));
    assert!(!client.apply(&Update::Despawn { entity: e }));
    assert!(!client.contains(e));
    assert!(client.apply(&Update::Insert { entity: e, record: Record::Appearance(Appearance::Box) }));
    assert!(client.contains(e));
    assert_eq!(client.get(e).unwrap().appearance, Some(Appearance::Box));
    assert_eq!(client.get(e).unwrap().tint, None);
    assert!(!client.apply(&Update::Insert { entity: e, record: Record::Appearance(Appearance::Capsule) }));
    assert!(!client.apply(&Update::Spawn { entity: e }));
    assert_eq!(client.get(e).unwrap().appearance, Some(Appearance::Capsule));
    assert!(!client.apply(&Update::Despawn { entity: e }));
    assert!(!client.contains(e));
    assert!(!client.apply(&Update::Spawn { entity: Entity(1) }));
    assert!(client.contains(Entity(1)));
}

#[test]
fn connect_broadcast_disconnect() {
    let mut server = PetriServerPlugin::build();
    let mut watcher = Replica::new();
    let monster = Entity(0);

    // client 7 watches from the start
    server.update(&vec![ServerEvent::ClientConnected { client_id: 7 }]);
    server.settle();
    let first = server.broadcast();
    assert_eq!(first.newcomers, vec![7]);
    watcher.apply_all(&first.snapshot);
    assert_mirrors(&watcher, &server.world);
    assert!(watcher.contains(monster));

    // client 100 connects
    server.inbox.names.push(100, SetName(String::from("ann")));
    server.update(&vec![ServerEvent::ClientConnected { client_id: 100 }]);
    let e1 = server.player_map.get(100).unwrap().entity;
    let at = server.world.get(e1).unwrap().transform;
    assert!(1500 <= at.x && at.x < 4500 && at.y == 2500 && 1500 <= at.z && at.z < 4500);
    server.settle();
    let second = server.broadcast();
    assert_eq!(second.newcomers, vec![100]);

    // the watcher gets the full record set of the new entity
    let added = watcher.apply_all(&second.updates);
    assert_eq!(added, vec![e1]);
    let got = watcher.get(e1).unwrap();
    assert_eq!(got.player, Some(Player(100)));
    assert_eq!(got.tint, Some(Tint::for_client(100)));
    assert_eq!(got.appearance, Some(Appearance::Capsule));
    assert_eq!(got.pos, Some(ReplicatedPos(at)));
    assert_eq!(got.aim, Some(ReplicatedAim(Vec3::neg_z())));
    assert_eq!(got.name.as_deref(), Some("ann"));
    assert_mirrors(&watcher, &server.world);
    assert_eq!(
        hydrate_entities(&watcher, &added, 7),
        vec![Hydrated {
            entity: e1,
            how: Hydration::Body { appearance: Appearance::Capsule, tint: Tint::for_client(100) },
        }]
    );

    // the newcomer gets the whole world, and sees itself
    let mut newcomer = Replica::new();
    let seen = newcomer.apply_all(&second.snapshot);
    assert_mirrors(&newcomer, &server.world);
    let shown = hydrate_entities(&newcomer, &seen, 100);
    assert!(shown.contains(&Hydrated { entity: e1, how: Hydration::Me }));

    // client 100 leaves: everyone is told to remove its entity
    server.update(&vec![ServerEvent::ClientDisconnected { client_id: 100 }]);
    server.settle();
    let third = server.broadcast();
    assert!(third.snapshot.is_empty());
    assert!(third.newcomers.is_empty());
    assert!(third
        .updates
        .iter()
        .any(|u| matches!(u, Update::Despawn { entity } if *entity == e1)));
    watcher.apply_all(&third.updates);
    assert!(!watcher.contains(e1));
    assert_mirrors(&watcher, &server.world);
    assert!(!server.player_map.is_connected(100));

    // later broadcasts leave the entity out
    server.update(&vec![]);
    server.settle();
    let fourth = server.broadcast();
    assert!(fourth.updates.is_empty());
    watcher.apply_all(&fourth.updates);
    assert!(!watcher.contains(e1));
}

#[test]
fn events_of_a_client_that_left_do_not_touch_the_others() {
    let mut server = PetriServerPlugin::build();
    server.update(&vec![
        ServerEvent::ClientConnected { client_id: 1 },
        ServerEvent::ClientConnected { client_id: 2 },
    ]);
    let stays = server.player_map.get(2).unwrap().entity;
    server.update(&vec![ServerEvent::ClientDisconnected { client_id: 1 }]);
    server.settle();
    server.broadcast();
    let before = server.world.get(stays).unwrap().records.duplicate();
    let at = server.world.get(stays).unwrap().transform;

    server.inbox.moves.push(1, petrichor::events::MoveDirection(petrichor::geometry::Vec2::new(1000, 0)));
    server.inbox.aims.push(1, petrichor::events::Aim(Vec3::new(1000, 0, 0)));
    server.inbox.names.push(1, SetName(String::from("ghost")));
    let outcome = server.update(&vec![]);
    assert!(outcome.moves.orders.is_empty());
    assert_eq!(outcome.moves.poltergeists, vec![1]);
    assert_eq!(outcome.aims_set_aside, vec![1]);
    assert_eq!(outcome.boxes_made, 0);
    assert_eq!(server.inbox.moves.len(), 0);
    server.settle();
    assert!(server.broadcast().updates.is_empty());
    let after = server.world.get(stays).unwrap();
    assert_eq!(after.transform, at);
    for kind in [
        RecordKind::Player,
        RecordKind::Tint,
        RecordKind::ReplicatedPos,
        RecordKind::ReplicatedAim,
        RecordKind::Appearance,
        RecordKind::Name,
    ] {
        assert!(after.records.same_slot(&before, kind));
    }
    assert_eq!(server.player_map.len(), 1);
}

#[test]
fn the_server_starts_with_the_monster() {
    let server = PetriServerPlugin::build();
    assert_eq!(server.world.len(), 1);
    let d = server.world.get(Entity(0)).unwrap();
    assert_eq!(d.transform, Vec3::new(0, 10_000, 0));
    assert_eq!(d.records.name.as_deref(), Some("Monster"));
    assert_eq!(d.records.tint, Some(Tint::pink()));
    assert_eq!(d.records.appearance, Some(Appearance::Box));
    assert_eq!(d.records.player, None);
    assert_eq!(server.player_map.len(), 0);
    assert_eq!(server.tick, 0);
    assert!(server.newcomers.is_empty());
}

#[test]
fn ticks_are_counted() {
    let mut server = PetriServerPlugin::build();
    server.update(&vec![]);
    server.update(&vec![ServerEvent::ClientConnected { client_id: 5 }]);
    assert_eq!(server.tick, 2);
    assert_eq!(server.player_map.get(5).unwrap().connected_at, 2);
    server.tick = u64::MAX;
    server.update(&vec![]);
    assert_eq!(server.tick, u64::MAX);
}

#[test]
fn names_from_the_inbox_reach_the_world() {
    let mut server = PetriServerPlugin::build();
    server.update(&vec![ServerEvent::ClientConnected { client_id: 1 }]);
    let e = server.player_map.get(1).unwrap().entity;
    let names = vec![FromClient { client_id: 1, event: SetName(String::from("x")) }];
    for n in names {
        server.inbox.names.push(n.client_id, n.event);
    }
    server.update(&vec![]);
    assert_eq!(server.world.get(e).unwrap().records.name.as_deref(), Some("x"));
}
