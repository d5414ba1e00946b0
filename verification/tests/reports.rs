use petrichor::client::{PetriClientPlugin, PetriState};
use petrichor::events::ServerEvent;
use petrichor::geometry::Vec3;
use petrichor::records::Player;
use petrichor::lifecycle::{client_connected, report_session_errors, reports_can_be_applied};
use petrichor::server::PetriServerPlugin;
use petrichor::sessions::PlayerMap;
use petrichor::world::World;

fn connect(id: u64) -> ServerEvent {
    ServerEvent::ClientConnected { client_id: id }
}

fn leave(id: u64) -> ServerEvent {
    ServerEvent::ClientDisconnected { client_id: id }
}

#[test]
fn a_leave_must_be_about_a_connected_client() {
    let mut w = World::new();
    let mut m = PlayerMap::new();
    client_connected(&mut w, &mut m, 1, Vec3::zero(), 0);
    assert!(reports_can_be_applied(&m, &vec![]));
    assert!(reports_can_be_applied(&m, &vec![leave(1)]));
    assert!(!reports_can_be_applied(&m, &vec![leave(2)]));
    assert!(!reports_can_be_applied(&m, &vec![leave(1), leave(1)]));
    assert!(reports_can_be_applied(&m, &vec![leave(1), connect(1), leave(1)]));
    assert!(reports_can_be_applied(&m, &vec![connect(2), connect(2), leave(2), connect(1)]));
    assert!(!reports_can_be_applied(&m, &vec![connect(2), leave(2), leave(1), leave(2)]));
    assert!(reports_can_be_applied(&PlayerMap::new(), &vec![connect(9)]));
    assert!(!reports_can_be_applied(&PlayerMap::new(), &vec![connect(9), leave(8)]));
}

#[test]
fn a_failed_send_costs_that_client_its_session() {
    let mut server = PetriServerPlugin::build();
    server.update(&vec![connect(1), connect(2), connect(3)]);
    let reports = report_session_errors(&server.player_map, &vec![2, 7, 2, 3, 2]);
    assert_eq!(reports, vec![leave(2), leave(3)]);
    assert!(reports_can_be_applied(&server.player_map, &reports));
    let stays = server.player_map.get(1).unwrap().entity;
    server.update(&reports);
    assert_eq!(server.player_map.len(), 1);
    assert!(server.player_map.is_connected(1));
    assert!(server.world.is_alive(stays));
    assert!(report_session_errors(&server.player_map, &vec![2, 3]).is_empty());
    assert!(report_session_errors(&server.player_map, &vec![]).is_empty());
}

#[test]
fn every_session_names_the_entity_of_its_client() {
    let mut server = PetriServerPlugin::build();
    server.update(&vec![connect(5), connect(6), leave(5), connect(7), connect(5)]);
    server.settle();
    server.broadcast();
    assert_eq!(server.player_map.len(), 3);
    for id in [5u64, 6, 7] {
        let e = server.player_map.get(id).unwrap().entity;
        assert_eq!(server.world.get(e).unwrap().records.player, Some(Player(id)));
    }
    // no live entity plays a client without a session
    let mut players = 0;
    for i in 0..server.world.len() {
        if let Some(d) = server.world.get(petrichor::world::Entity(i)) {
            if let Some(p) = d.records.player {
                players += 1;
                assert_eq!(server.player_map.get(p.0).unwrap().entity.0, i);
            }
        }
    }
    assert_eq!(players, 3);
}

#[test]
fn the_client_knows_itself_by_its_identifier() {
    let mut client = PetriClientPlugin::build(1);
    assert_eq!(client.my_player_id(), 1);
    client.connected_as(77);
    assert_eq!(client.my_player_id(), 77);
    assert_eq!(client.state(), PetriState::Login);
    assert_eq!(client.login().0, "");
}
