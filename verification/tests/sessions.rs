use petrichor::events::{
    AdminCommand, Aim, FromClient, MoveDirection, ServerEvent, SetName,
};
use petrichor::geometry::{Vec2, Vec3};
use petrichor::records::{
    Appearance, Player, RecordSet, ReplicatedAim, ReplicatedPos, Tint,
};
use petrichor::lifecycle::{
    client_connected, client_disconnected, server_event_system, spawn_coordinate, spawn_point,
};
use petrichor::server::track_newcomers;
use petrichor::systems::{
    apply_aim, entity_of, handle_admin_commands, kill_y, last_name, move_clients, receive_names,
    MoveOrder, FLOOR,
};
use petrichor::sessions::{PlayerMap, Session};
use petrichor::world::{Entity, World};

fn connect(id: u64) -> ServerEvent {
    ServerEvent::ClientConnected { client_id: id }
}

fn leave(id: u64) -> ServerEvent {
    ServerEvent::ClientDisconnected { client_id: id }
}

#[test]
fn player_map_keeps_what_is_entered() {
    let mut m = PlayerMap::new();
    assert_eq!(m.len(), 0);
    assert_eq!(m.get(5), None);
    assert!(!m.is_connected(5));
    let s = Session { entity: Entity(3), connected_at: 9 };
    assert_eq!(m.insert(5, s), None);
    assert_eq!(m.len(), 1);
    assert_eq!(m.get(5), Some(s));
    assert!(m.is_connected(5));
    assert_eq!(m.get(6), None);
    let t = Session { entity: Entity(4), connected_at: 10 };
    assert_eq!(m.insert(5, t), Some(s));
    assert_eq!(m.len(), 1);
    assert_eq!(m.insert(6, s), None);
    assert_eq!(m.len(), 2);
    assert_eq!(m.remove(5), Some(t));
    assert_eq!(m.remove(5), None);
    assert_eq!(m.len(), 1);
    assert_eq!(m.get(5), None);
    assert_eq!(m.get(6), Some(s));
}

#[test]
fn sessions_count_connects_minus_leaves() {
    let mut w = World::new();
    let mut m = PlayerMap::new();
    let reports = vec![connect(1), connect(2), connect(3), leave(2), connect(4), leave(1)];
    server_event_system(&mut w, &mut m, &reports, 1);
    assert_eq!(m.len(), 4 - 2);
    assert!(m.is_connected(3) && m.is_connected(4));
    assert!(!m.is_connected(1) && !m.is_connected(2));
    server_event_system(&mut w, &mut m, &vec![leave(3), leave(4)], 2);
    assert_eq!(m.len(), 0);
    for i in 0..w.len() {
        assert!(!w.is_alive(Entity(i)));
    }
}

#[test]
fn a_connecting_client_gets_its_entity() {
    let mut w = World::new();
    let mut m = PlayerMap::new();
    let e = client_connected(&mut w, &mut m, 100, Vec3::new(1500, 2500, 1500), 7);
    assert_eq!(m.get(100), Some(Session { entity: e, connected_at: 7 }));
    let d = w.get(e).unwrap();
    assert_eq!(d.parent, None);
    assert_eq!(d.transform, Vec3::new(1500, 2500, 1500));
    assert!(d.moved);
    assert_eq!(d.records.player, Some(Player(100)));
    assert_eq!(d.records.tint, Some(Tint::for_client(100)));
    assert_eq!(d.records.appearance, Some(Appearance::Capsule));
    assert_eq!(d.records.pos, Some(ReplicatedPos(Vec3::zero())));
    assert_eq!(d.records.aim, Some(ReplicatedAim(Vec3::neg_z())));
    assert_eq!(d.records.name, None);
    assert_eq!(entity_of(&w, &m, 100), Some(e));
    assert_eq!(entity_of(&w, &m, 101), None);
}

#[test]
fn a_leaving_client_takes_its_entity_and_rig_along() {
    let mut w = World::new();
    let mut m = PlayerMap::new();
    let a = client_connected(&mut w, &mut m, 1, Vec3::zero(), 0);
    let b = client_connected(&mut w, &mut m, 2, Vec3::zero(), 0);
    let rig = w.spawn_child(a, Vec3::zero(), RecordSet::new()).unwrap();
    assert_eq!(client_disconnected(&mut w, &mut m, 1), a);
    assert!(!w.is_alive(a));
    assert!(!w.is_alive(rig));
    assert!(w.is_alive(b));
    assert!(!m.is_connected(1));
    assert!(m.is_connected(2));
    assert_eq!(m.len(), 1);
}

#[test]
fn clients_spawn_inside_the_spawn_region() {
    let mut w = World::new();
    let mut m = PlayerMap::new();
    let mut reports = Vec::new();
    for id in 0..200u64 {
        reports.push(connect(id));
    }
    server_event_system(&mut w, &mut m, &reports, 1);
    assert_eq!(m.len(), 200);
    for id in 0..200u64 {
        let e = m.get(id).unwrap().entity;
        let at = w.get(e).unwrap().transform;
        assert!(1500 <= at.x && at.x < 4500, "x {}", at.x);
        assert_eq!(at.y, 2500);
        assert!(1500 <= at.z && at.z < 4500, "z {}", at.z);
        assert_eq!(m.get(id).unwrap().connected_at, 1);
    }
}

#[test]
fn spawn_coordinates_scale_the_sample() {
    assert_eq!(spawn_coordinate(0), 1500);
    assert_eq!(spawn_coordinate(u32::MAX), 4499);
    assert_eq!(spawn_coordinate(1 << 31), 3000);
    assert_eq!(spawn_coordinate(255), 1500);
    assert_eq!(spawn_coordinate(1 << 30), 2250);
    assert_eq!(spawn_point(0, u32::MAX), Vec3::new(1500, 2500, 4499));
}

#[test]
fn movement_of_a_disconnected_client_is_set_aside() {
    let mut w = World::new();
    let mut m = PlayerMap::new();
    let a = client_connected(&mut w, &mut m, 1, Vec3::zero(), 0);
    let b = client_connected(&mut w, &mut m, 2, Vec3::zero(), 0);
    client_disconnected(&mut w, &mut m, 1);
    let before = w.len();
    let events = vec![
        FromClient { client_id: 1, event: MoveDirection(Vec2::new(1000, 0)) },
        FromClient { client_id: 2, event: MoveDirection(Vec2::new(0, 1000)) },
        FromClient { client_id: 9, event: MoveDirection(Vec2::new(5, 5)) },
        FromClient { client_id: 2, event: MoveDirection(Vec2::new(0, -1000)) },
    ];
    let outcome = move_clients(&w, &m, &events);
    assert_eq!(
        outcome.orders,
        vec![
            MoveOrder { entity: b, direction: Vec2::new(0, 1000) },
            MoveOrder { entity: b, direction: Vec2::new(0, -1000) },
        ]
    );
    assert_eq!(outcome.poltergeists, vec![1, 9]);
    assert_eq!(w.len(), before);
    assert!(!w.is_alive(a));
    assert!(w.is_alive(b));
    assert_eq!(m.len(), 1);
}

#[test]
fn movement_of_a_fallen_client_is_set_aside() {
    let mut w = World::new();
    let mut m = PlayerMap::new();
    let a = client_connected(&mut w, &mut m, 1, Vec3::zero(), 0);
    w.set_transform(a, Vec3::new(0, FLOOR - 1, 0));
    kill_y(&mut w);
    assert!(m.is_connected(1));
    let events = vec![FromClient { client_id: 1, event: MoveDirection(Vec2::new(1, 0)) }];
    let outcome = move_clients(&w, &m, &events);
    assert!(outcome.orders.is_empty());
    assert_eq!(outcome.poltergeists, vec![1]);
    assert_eq!(client_disconnected(&mut w, &mut m, 1), a);
    assert_eq!(m.len(), 0);
}

#[test]
fn aims_are_set_in_order() {
    let mut w = World::new();
    let mut m = PlayerMap::new();
    let a = client_connected(&mut w, &mut m, 1, Vec3::zero(), 0);
    let b = client_connected(&mut w, &mut m, 2, Vec3::zero(), 0);
    w.remove_record(b, petrichor::records::RecordKind::ReplicatedAim);
    let events = vec![
        FromClient { client_id: 1, event: Aim(Vec3::new(1000, 0, 0)) },
        FromClient { client_id: 3, event: Aim(Vec3::new(0, 1000, 0)) },
        FromClient { client_id: 2, event: Aim(Vec3::new(0, 1000, 0)) },
        FromClient { client_id: 1, event: Aim(Vec3::new(0, 0, 1000)) },
    ];
    let set_aside = apply_aim(&mut w, &m, &events);
    assert_eq!(set_aside, vec![3, 2]);
    assert_eq!(w.get(a).unwrap().records.aim, Some(ReplicatedAim(Vec3::new(0, 0, 1000))));
    assert_eq!(w.get(b).unwrap().records.aim, None);
}

#[test]
fn a_name_once_given_stays() {
    let mut w = World::new();
    let mut m = PlayerMap::new();
    let a = client_connected(&mut w, &mut m, 1, Vec3::zero(), 0);
    let b = client_connected(&mut w, &mut m, 2, Vec3::zero(), 0);
    let events = vec![
        FromClient { client_id: 1, event: SetName(String::from("first")) },
        FromClient { client_id: 7, event: SetName(String::from("nobody")) },
        FromClient { client_id: 1, event: SetName(String::from("second")) },
    ];
    assert_eq!(last_name(&events, 1).as_deref(), Some("second"));
    assert_eq!(last_name(&events, 2), None);
    receive_names(&mut w, &events);
    assert_eq!(w.get(a).unwrap().records.name.as_deref(), Some("second"));
    assert_eq!(w.get(b).unwrap().records.name, None);
    let later = vec![
        FromClient { client_id: 1, event: SetName(String::from("third")) },
        FromClient { client_id: 2, event: SetName(String::from("bee")) },
    ];
    receive_names(&mut w, &later);
    assert_eq!(w.get(a).unwrap().records.name.as_deref(), Some("second"));
    assert_eq!(w.get(b).unwrap().records.name.as_deref(), Some("bee"));
}

#[test]
fn a_wall_is_built_column_by_column() {
    let mut w = World::new();
    let first = w.len();
    let commands = vec![
        FromClient {
            client_id: 1,
            event: AdminCommand::SpawnBoxWall { side_size: 2, at: Vec3::new(500, 0, -250) },
        },
        FromClient {
            client_id: 1,
            event: AdminCommand::SpawnBoxWall { side_size: 0, at: Vec3::zero() },
        },
        FromClient {
            client_id: 2,
            event: AdminCommand::SpawnBoxWall { side_size: 1, at: Vec3::new(7, 7, 7) },
        },
    ];
    assert_eq!(handle_admin_commands(&mut w, &commands), 5);
    assert_eq!(w.len(), first + 5);
    let expected = [
        Vec3::new(500, 0, -250),
        Vec3::new(500, 1000, -250),
        Vec3::new(1500, 0, -250),
        Vec3::new(1500, 1000, -250),
        Vec3::new(7, 7, 7),
    ];
    for (i, at) in expected.iter().enumerate() {
        let d = w.get(Entity(first + i)).unwrap();
        assert_eq!(d.transform, *at);
        assert_eq!(d.records.tint, Some(Tint::green()));
        assert_eq!(d.records.appearance, Some(Appearance::Box));
        assert_eq!(d.records.player, None);
        assert_eq!(d.parent, None);
    }
}

#[test]
fn what_falls_below_the_floor_is_cleared_away() {
    let mut w = World::new();
    let on_floor = w.spawn(Vec3::new(0, FLOOR, 0), RecordSet::new());
    let below = w.spawn(Vec3::new(0, FLOOR - 1, 0), RecordSet::new());
    let carried = w.spawn_child(below, Vec3::new(0, 50, 0), RecordSet::new()).unwrap();
    let deeper = w.spawn_child(carried, Vec3::new(0, FLOOR - 5, 0), RecordSet::new()).unwrap();
    let hanging = w.spawn_child(on_floor, Vec3::new(0, -1_000_001, 0), RecordSet::new()).unwrap();
    let above = w.spawn(Vec3::new(0, 2500, 0), RecordSet::new());
    kill_y(&mut w);
    assert!(w.is_alive(on_floor));
    assert!(!w.is_alive(below));
    assert!(!w.is_alive(carried));
    assert!(!w.is_alive(deeper));
    assert!(!w.is_alive(hanging));
    assert!(w.is_alive(above));
    assert_eq!(FLOOR, -1_000_000);
}

#[test]
fn newcomers_wait_in_the_order_of_connecting() {
    let mut line = vec![4u64];
    track_newcomers(&mut line, &vec![connect(1), connect(2), leave(4), connect(1), leave(2)]);
    assert_eq!(line, vec![1]);
    track_newcomers(&mut line, &vec![connect(3), connect(5)]);
    assert_eq!(line, vec![1, 3, 5]);
}
