use petrichor::client::{
    grab_mouse, hydrate_entities, move_player_from_network, send_movement, send_name, Cursor,
    Hydrated, Hydration, MoveKeys, PetriClientPlugin, PetriState, Replica,
};
use petrichor::events::MoveDirection;
use petrichor::geometry::{Vec2, Vec3};
use petrichor::login::{can_submit, CurrentUserLogin, LoginKey, LoginPlugin};
use petrichor::records::{Appearance, Player, Record, ReplicatedPos, Tint};
use petrichor::replication::Update;
use petrichor::world::Entity;

fn keys(a: bool, d: bool, w: bool, s: bool) -> MoveKeys {
    MoveKeys { a, d, w, s }
}

#[test]
fn no_keys_no_movement() {
    let f = Vec3::new(0, 0, -1000);
    assert_eq!(send_movement(keys(false, false, false, false), f), None);
    assert_eq!(send_movement(keys(true, true, false, false), f), None);
    assert_eq!(send_movement(keys(true, true, true, true), f), None);
}

#[test]
fn movement_is_turned_to_where_the_eyes_look() {
    let ahead = Vec3::new(0, 0, -1000);
    assert_eq!(
        send_movement(keys(false, false, true, false), ahead),
        Some(MoveDirection(Vec2::new(0, -1000)))
    );
    assert_eq!(
        send_movement(keys(false, false, false, true), ahead),
        Some(MoveDirection(Vec2::new(0, 1000)))
    );
    assert_eq!(
        send_movement(keys(false, true, false, false), ahead),
        Some(MoveDirection(Vec2::new(1000, 0)))
    );
    assert_eq!(
        send_movement(keys(true, false, false, false), ahead),
        Some(MoveDirection(Vec2::new(-1000, 0)))
    );
    let tilted = Vec3::new(600, -300, 800);
    assert_eq!(
        send_movement(keys(false, true, true, false), tilted),
        Some(MoveDirection(Vec2::new(600 - 800, 600 + 800)))
    );
    assert_eq!(
        send_movement(keys(true, true, true, false), tilted),
        Some(MoveDirection(Vec2::new(600, 800)))
    );
}

#[test]
fn movement_stops_at_the_end_of_the_range() {
    let huge = Vec3::new(i32::MAX, 0, i32::MIN);
    assert_eq!(
        send_movement(keys(false, true, true, false), huge),
        Some(MoveDirection(Vec2::new(i32::MAX, -1)))
    );
    assert_eq!(
        send_movement(keys(true, false, true, false), huge),
        Some(MoveDirection(Vec2::new(-1, i32::MIN)))
    );
}

#[test]
fn the_pointer_is_grabbed_and_freed() {
    let free = Cursor { visible: true, locked: false };
    let held = Cursor { visible: false, locked: true };
    assert_eq!(grab_mouse(free, false, false), free);
    assert_eq!(grab_mouse(held, false, false), held);
    assert_eq!(grab_mouse(free, true, false), held);
    assert_eq!(grab_mouse(held, false, true), free);
    assert_eq!(grab_mouse(free, true, true), free);
    assert_eq!(grab_mouse(held, true, true), free);
}

#[test]
fn entities_without_colour_or_shape_are_not_shown() {
    let mut r = Replica::new();
    r.apply(&Update::Insert { entity: Entity(1), record: Record::Appearance(Appearance::Box) });
    r.apply(&Update::Insert { entity: Entity(2), record: Record::Tint(Tint::green()) });
    r.apply(&Update::Insert { entity: Entity(3), record: Record::Tint(Tint::pink()) });
    r.apply(&Update::Insert { entity: Entity(3), record: Record::Appearance(Appearance::Capsule) });
    r.apply(&Update::Insert { entity: Entity(4), record: Record::Tint(Tint::pink()) });
    r.apply(&Update::Insert { entity: Entity(4), record: Record::Appearance(Appearance::Capsule) });
    r.apply(&Update::Insert { entity: Entity(4), record: Record::Player(Player(12)) });
    let dry = vec![Entity(4), Entity(1), Entity(2), Entity(9), Entity(3)];
    assert_eq!(
        hydrate_entities(&r, &dry, 12),
        vec![
            Hydrated { entity: Entity(4), how: Hydration::Me },
            Hydrated {
                entity: Entity(3),
                how: Hydration::Body { appearance: Appearance::Capsule, tint: Tint::pink() },
            },
        ]
    );
    assert_eq!(
        hydrate_entities(&r, &vec![Entity(4)], 13),
        vec![Hydrated {
            entity: Entity(4),
            how: Hydration::Body { appearance: Appearance::Capsule, tint: Tint::pink() },
        }]
    );
}

#[test]
fn entities_are_drawn_where_the_server_last_put_them() {
    let mut r = Replica::new();
    let e = Entity(5);
    assert_eq!(move_player_from_network(&r, e), None);
    r.apply(&Update::Spawn { entity: e });
    assert_eq!(move_player_from_network(&r, e), None);
    r.apply(&Update::Insert { entity: e, record: Record::Pos(ReplicatedPos(Vec3::new(1, 2, 3))) });
    r.apply(&Update::Insert { entity: e, record: Record::Pos(ReplicatedPos(Vec3::new(9, 8, 7))) });
    assert_eq!(move_player_from_network(&r, e), Some(Vec3::new(9, 8, 7)));
}

fn typed(s: &[&str]) -> Vec<String> {
    s.iter().map(|c| c.to_string()).collect()
}

#[test]
fn typing_fills_the_login() {
    let mut login = LoginPlugin::build();
    assert_eq!(login.0, "");
    assert!(!LoginPlugin::login_input(&mut login, &vec![], &typed(&["a", "n", "n"])));
    assert_eq!(login.0, "ann");
    assert_eq!(LoginPlugin::label(&login), "ann_");
    assert!(!LoginPlugin::login_input(
        &mut login,
        &vec![LoginKey::Backspace, LoginKey::Other, LoginKey::Backspace],
        &typed(&["é", "xy"])
    ));
    assert_eq!(login.0, "aéxy");
    assert!(!LoginPlugin::login_input(&mut login, &vec![LoginKey::Backspace], &vec![]));
    assert_eq!(login.0, "aéx");
}

#[test]
fn backspace_on_an_empty_login_does_nothing() {
    let mut login = CurrentUserLogin(String::new());
    assert!(!LoginPlugin::login_input(&mut login, &vec![LoginKey::Backspace; 3], &vec![]));
    assert_eq!(login.0, "");
    assert_eq!(LoginPlugin::label(&login), "_");
}

#[test]
fn a_login_of_white_space_is_not_submitted() {
    let mut login = CurrentUserLogin(String::from(" \t "));
    assert!(!LoginPlugin::login_input(&mut login, &vec![LoginKey::Enter], &typed(&["b"])));
    assert_eq!(login.0, " \t b");
    assert!(LoginPlugin::login_input(&mut login, &vec![LoginKey::Enter], &typed(&["c"])));
    assert_eq!(login.0, " \t b");
    assert!(can_submit("b"));
    assert!(!can_submit(""));
}

#[test]
fn submitting_drops_the_rest_of_the_input() {
    let mut login = CurrentUserLogin(String::from("ab"));
    let keys = vec![LoginKey::Backspace, LoginKey::Enter, LoginKey::Backspace];
    assert!(LoginPlugin::login_input(&mut login, &keys, &typed(&["z"])));
    assert_eq!(login.0, "a");
    let mut emptied = CurrentUserLogin(String::from("a"));
    let keys = vec![LoginKey::Backspace, LoginKey::Enter, LoginKey::Other];
    assert!(!LoginPlugin::login_input(&mut emptied, &keys, &typed(&["z"])));
    assert_eq!(emptied.0, "z");
}

#[test]
fn the_client_enters_the_scene_with_its_login() {
    let mut client = PetriClientPlugin::build(42);
    assert_eq!(client.state(), PetriState::Login);
    let dropped = client.receive(&vec![Update::Spawn { entity: Entity(0) }]);
    assert!(dropped.is_empty());
    assert!(!client.replica().contains(Entity(0)));
    assert!(!client.login_input(&vec![LoginKey::Enter], &typed(&["j", "o"])));
    assert_eq!(client.state(), PetriState::Login);
    assert!(client.login_input(&vec![LoginKey::Enter], &vec![]));
    assert_eq!(client.state(), PetriState::Scene);
    assert_eq!(send_name(client.login()).0, "jo");
    assert!(!client.login_input(&vec![LoginKey::Backspace, LoginKey::Enter], &typed(&["x"])));
    assert_eq!(client.login().0, "jo");
    assert_eq!(client.state(), PetriState::Scene);

    let shown = client.receive(&vec![
        Update::Spawn { entity: Entity(3) },
        Update::Insert { entity: Entity(3), record: Record::Player(Player(42)) },
        Update::Insert { entity: Entity(3), record: Record::Tint(Tint::for_client(42)) },
        Update::Insert { entity: Entity(3), record: Record::Appearance(Appearance::Capsule) },
        Update::Insert { entity: Entity(4), record: Record::Tint(Tint::green()) },
        Update::Insert { entity: Entity(4), record: Record::Appearance(Appearance::Box) },
        Update::Insert { entity: Entity(4), record: Record::Appearance(Appearance::Box) },
    ]);
    assert_eq!(
        shown,
        vec![
            Hydrated { entity: Entity(3), how: Hydration::Me },
            Hydrated {
                entity: Entity(4),
                how: Hydration::Body { appearance: Appearance::Box, tint: Tint::green() },
            },
        ]
    );
    assert!(client.replica().contains(Entity(4)));
    let again = client.receive(&vec![Update::Insert {
        entity: Entity(4),
        record: Record::Appearance(Appearance::Capsule),
    }]);
    assert!(again.is_empty());
}
