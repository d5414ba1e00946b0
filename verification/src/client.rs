//! The client's side: its copy of the replicated world, and what it decides from it.

use std::collections::HashMap;
use vstd::prelude::*;
use crate::events::{MoveDirection, SetName};
use crate::geometry::{saturate, Vec2, Vec3};
use crate::records::{Appearance, Player, RecordSet, RecordSetView, RecordView, Tint};
use crate::replication::{
    apply_update, apply_updates, update_views, ReplicaView, Update, UpdateView,
};
use crate::login::{after_keys, keys_submit, typed, CurrentUserLogin, LoginKey, LoginPlugin};
use crate::world::Entity;

verus! {

broadcast use vstd::std_specs::hash::group_hash_axioms;

/// The client's copy of the replicated world. Every update overwrites what the copy
/// held; nothing is blended between one tick and the next.
pub struct Replica {
    entities: HashMap<usize, RecordSet>,
}

impl View for Replica {
    type V = ReplicaView;

    closed spec fn view(&self) -> ReplicaView {
        Map::new(
            |e: Entity| self.entities@.contains_key(e.0),
            |e: Entity| self.entities@[e.0]@,
        )
    }
}

/// Whether an update gives an appearance to an entity that had none.
pub open spec fn adds_appearance(m: ReplicaView, u: UpdateView) -> bool {
    match u {
        UpdateView::Insert { entity, record: RecordView::Appearance(_) } => !m.contains_key(entity)
            || m[entity].appearance is None,
        _ => false,
    }
}

/// The entities that a run of updates gives an appearance to, in the order in which
/// that happens.
pub open spec fn appearances_added(m: ReplicaView, updates: Seq<UpdateView>) -> Seq<Entity>
    decreases updates.len(),
{
    if updates.len() == 0 {
        Seq::empty()
    } else {
        let before = appearances_added(m, updates.drop_last());
        if adds_appearance(apply_updates(m, updates.drop_last()), updates.last()) {
            before.push(updates.last()->Insert_entity)
        } else {
            before
        }
    }
}

impl Replica {
    /// A copy that knows no entity.
    pub fn new() -> (r: Replica)
        ensures
            r@ == Map::<Entity, RecordSetView>::empty(),
    {
        let r = Replica { entities: HashMap::new() };
        assert(r@ =~= Map::<Entity, RecordSetView>::empty());
        r
    }

    /// Whether the copy knows an entity.
    pub fn contains(&self, entity: Entity) -> (b: bool)
        ensures
            b == self@.contains_key(entity),
    {
        self.entities.contains_key(&entity.0)
    }

    /// The records that the copy holds of an entity.
    pub fn get(&self, entity: Entity) -> (found: Option<&RecordSet>)
        ensures
            found is Some <==> self@.contains_key(entity),
            found matches Some(records) ==> records@ == self@[entity],
    {
        self.entities.get(&entity.0)
    }

    /// Applies one update, and says whether it gave an appearance to an entity that
    /// had none.
    pub fn apply(&mut self, update: &Update) -> (added: bool)
        ensures
            final(self)@ == apply_update(old(self)@, update@),
            added == adds_appearance(old(self)@, update@),
    {
        match update {
            Update::Spawn { entity } => {
                if !self.entities.contains_key(&entity.0) {
                    self.entities.insert(entity.0, RecordSet::new());
                }
                assert(self@ =~= apply_update(old(self)@, update@));
                false
            },
            Update::Insert { entity, record } => {
                let mut records = match self.entities.remove(&entity.0) {
                    Some(records) => records,
                    None => RecordSet::new(),
                };
                let added = match record {
                    crate::records::Record::Appearance(_) => records.appearance.is_none(),
                    _ => false,
                };
                records.insert(record.duplicate());
                self.entities.insert(entity.0, records);
                assert(self@ =~= apply_update(old(self)@, update@));
                added
            },
            Update::Remove { entity, kind } => {
                match self.entities.remove(&entity.0) {
                    Some(records) => {
                        let mut records = records;
                        records.remove(*kind);
                        self.entities.insert(entity.0, records);
                    },
                    None => {},
                }
                assert(self@ =~= apply_update(old(self)@, update@));
                false
            },
            Update::Despawn { entity } => {
                self.entities.remove(&entity.0);
                assert(self@ =~= apply_update(old(self)@, update@));
                false
            },
        }
    }

    /// Applies a run of updates in order, and returns the entities that it gave an
    /// appearance to.
    pub fn apply_all(&mut self, updates: &Vec<Update>) -> (added: Vec<Entity>)
        ensures
            final(self)@ == apply_updates(old(self)@, update_views(updates@)),
            added@ == appearances_added(old(self)@, update_views(updates@)),
    {
        let mut added: Vec<Entity> = Vec::new();
        let mut i: usize = 0;
        let ghost all = update_views(updates@);
        while i < updates.len()
            invariant
                i <= updates.len(),
                all == update_views(updates@),
                self@ == apply_updates(old(self)@, all.take(i as int)),
                added@ == appearances_added(old(self)@, all.take(i as int)),
            decreases updates.len() - i,
        {
            proof {
                assert(all.take(i + 1).drop_last() =~= all.take(i as int));
                assert(all.take(i + 1).last() == updates@[i as int]@);
            }
            let entity = match &updates[i] {
                Update::Spawn { entity } => *entity,
                Update::Insert { entity, .. } => *entity,
                Update::Remove { entity, .. } => *entity,
                Update::Despawn { entity } => *entity,
            };
            if self.apply(&updates[i]) {
                added.push(entity);
            }
            i = i + 1;
        }
        proof {
            assert(all.take(i as int) =~= all);
        }
        added
    }
}

/// Where the client is: at the login screen, or in the scene.
#[derive(Clone, Copy, Debug, PartialEq, Eq, Hash, Structural)]
pub enum PetriState {
    Login,
    Scene,
}

/// How an entity that has just got its appearance is to be shown.
#[derive(Clone, Copy, Debug, PartialEq, Eq, Structural)]
pub enum Hydration {
    /// The entity is the player's own: it gets the camera, and no body.
    Me,
    /// The entity gets a body of this shape and colour.
    Body { appearance: Appearance, tint: Tint },
}

/// An entity together with how it is to be shown.
#[derive(Clone, Copy, Debug, PartialEq, Eq, Structural)]
pub struct Hydrated {
    pub entity: Entity,
    pub how: Hydration,
}

/// How an entity with these records is to be shown: not at all while it lacks a
/// colour or a shape, as the player's own when it carries the player's identifier,
/// and else with a body.
pub open spec fn hydration_of(records: RecordSetView, my_player_id: u64) -> Option<Hydration> {
    match (records.tint, records.appearance) {
        (Some(tint), Some(appearance)) => if records.player == Some(Player(my_player_id)) {
            Some(Hydration::Me)
        } else {
            Some(Hydration::Body { appearance, tint })
        },
        _ => None,
    }
}

/// What is to be shown of a run of entities, in order. An entity that the copy does
/// not know, or that lacks a colour or a shape, is passed over.
pub open spec fn hydrations(m: ReplicaView, dry: Seq<Entity>, my_player_id: u64) -> Seq<Hydrated>
    decreases dry.len(),
{
    if dry.len() == 0 {
        Seq::empty()
    } else {
        let before = hydrations(m, dry.drop_last(), my_player_id);
        let entity = dry.last();
        if m.contains_key(entity) {
            match hydration_of(m[entity], my_player_id) {
                Some(how) => before.push(Hydrated { entity, how }),
                None => before,
            }
        } else {
            before
        }
    }
}

/// Decides how the entities that have just got their appearance are to be shown.
pub fn hydrate_entities(
    replica: &Replica,
    dry_entities: &Vec<Entity>,
    my_player_id: u64,
) -> (shown: Vec<Hydrated>)
    ensures
        shown@ == hydrations(replica@, dry_entities@, my_player_id),
{
    let mut shown: Vec<Hydrated> = Vec::new();
    let mut i: usize = 0;
    while i < dry_entities.len()
        invariant
            i <= dry_entities.len(),
            shown@ == hydrations(replica@, dry_entities@.take(i as int), my_player_id),
        decreases dry_entities.len() - i,
    {
        proof {
            assert(dry_entities@.take(i + 1).drop_last() =~= dry_entities@.take(i as int));
        }
        let entity = dry_entities[i];
        match replica.get(entity) {
            Some(records) => match (records.tint, records.appearance) {
                (Some(tint), Some(appearance)) => {
                    let mine = match records.player {
                        Some(p) => p.0 == my_player_id,
                        None => false,
                    };
                    let how = if mine {
                        Hydration::Me
                    } else {
                        Hydration::Body { appearance, tint }
                    };
                    shown.push(Hydrated { entity, how });
                },
                _ => {},
            },
            None => {},
        }
        i = i + 1;
    }
    proof {
        assert(dry_entities@.take(i as int) =~= dry_entities@);
    }
    shown
}

/// Where an entity is to be drawn: at the position that the server sent last.
pub fn move_player_from_network(replica: &Replica, entity: Entity) -> (at: Option<Vec3>)
    ensures
        at == (if replica@.contains_key(entity) {
            match replica@[entity].pos {
                Some(p) => Some(p.0),
                None => None,
            }
        } else {
            None
        }),
{
    match replica.get(entity) {
        Some(records) => match records.pos {
            Some(p) => Some(p.0),
            None => None,
        },
        None => None,
    }
}

/// The name that the client announces once it is connected: its login.
pub fn send_name(login: &CurrentUserLogin) -> (event: SetName)
    ensures
        event.0@ == login.0@,
{
    SetName(login.0.clone())
}

/// The movement keys that are held down.
#[derive(Clone, Copy, Debug, PartialEq, Eq, Structural)]
pub struct MoveKeys {
    pub a: bool,
    pub d: bool,
    pub w: bool,
    pub s: bool,
}

impl MoveKeys {
    /// How far forward the keys push: one for `w`, minus one for `s`.
    pub open spec fn forward(self) -> int {
        (if self.w {
            1int
        } else {
            0int
        }) - (if self.s {
            1int
        } else {
            0int
        })
    }

    /// How far to the right the keys push: one for `d`, minus one for `a`.
    pub open spec fn right(self) -> int {
        (if self.d {
            1int
        } else {
            0int
        }) - (if self.a {
            1int
        } else {
            0int
        })
    }
}

/// The direction that the keys ask for, turned to where the eyes look.
pub open spec fn spec_movement(keys: MoveKeys, eyes_forward: Vec3) -> Vec2 {
    Vec2 {
        x: crate::geometry::clamp_coord(
            keys.forward() * eyes_forward.x - keys.right() * eyes_forward.z,
        ),
        y: crate::geometry::clamp_coord(
            keys.right() * eyes_forward.x + keys.forward() * eyes_forward.z,
        ),
    }
}

/// A coordinate taken once, not at all, or against its direction.
fn scaled(sign: i8, v: i32) -> (r: i64)
    requires
        -1 <= sign <= 1,
    ensures
        r == sign * v,
{
    assert(sign == 1 ==> sign * v == v) by (nonlinear_arith);
    assert(sign == -1 ==> sign * v == -v) by (nonlinear_arith);
    assert(sign == 0 ==> sign * v == 0) by (nonlinear_arith);
    if sign == 1 {
        v as i64
    } else if sign == -1 {
        -(v as i64)
    } else {
        0
    }
}

/// The movement event of one frame: the direction that the held keys ask for,
/// turned to where the eyes look. Keys that cancel out ask for nothing.
pub fn send_movement(keys: MoveKeys, eyes_forward: Vec3) -> (event: Option<MoveDirection>)
    ensures
        event == (if keys.forward() == 0 && keys.right() == 0 {
            None
        } else {
            Some(MoveDirection(spec_movement(keys, eyes_forward)))
        }),
{
    let forward: i8 = (if keys.w {
        1i8
    } else {
        0i8
    }) - (if keys.s {
        1i8
    } else {
        0i8
    });
    let right: i8 = (if keys.d {
        1i8
    } else {
        0i8
    }) - (if keys.a {
        1i8
    } else {
        0i8
    });
    if forward == 0 && right == 0 {
        return None;
    }
    let x: i64 = scaled(forward, eyes_forward.x) - scaled(right, eyes_forward.z);
    let y: i64 = scaled(right, eyes_forward.x) + scaled(forward, eyes_forward.z);
    Some(MoveDirection(Vec2 { x: saturate(x), y: saturate(y) }))
}

/// Whether the mouse pointer shows, and whether it is held inside the window.
#[derive(Clone, Copy, Debug, PartialEq, Eq, Structural)]
pub struct Cursor {
    pub visible: bool,
    pub locked: bool,
}

/// The pointer after one frame: a click of the left button hides and holds it, the
/// escape key shows and frees it, and the escape key wins over the click.
pub fn grab_mouse(
    cursor: Cursor,
    left_just_pressed: bool,
    escape_just_pressed: bool,
) -> (after: Cursor)
    ensures
        after == (if escape_just_pressed {
            Cursor { visible: true, locked: false }
        } else if left_just_pressed {
            Cursor { visible: false, locked: true }
        } else {
            cursor
        }),
{
    let mut after = cursor;
    if left_just_pressed {
        after = Cursor { visible: false, locked: true };
    }
    if escape_just_pressed {
        after = Cursor { visible: true, locked: false };
    }
    after
}

/// The client: its state, its login, and its copy of the world.
pub struct PetriClientPlugin {
    state: PetriState,
    login: CurrentUserLogin,
    my_player_id: u64,
    replica: Replica,
}

/// The mathematical value of a [`PetriClientPlugin`].
pub struct ClientView {
    pub state: PetriState,
    pub login: Seq<char>,
    pub my_player_id: u64,
    pub replica: ReplicaView,
}

impl View for PetriClientPlugin {
    type V = ClientView;

    closed spec fn view(&self) -> ClientView {
        ClientView {
            state: self.state,
            login: self.login.0@,
            my_player_id: self.my_player_id,
            replica: self.replica@,
        }
    }
}

impl PetriClientPlugin {
    /// A client at the login screen, with an empty login and an empty copy of the
    /// world. `my_player_id` is the identifier under which it will connect.
    pub fn build(my_player_id: u64) -> (client: PetriClientPlugin)
        ensures
            client@ == (ClientView {
                state: PetriState::Login,
                login: Seq::empty(),
                my_player_id,
                replica: Map::empty(),
            }),
    {
        PetriClientPlugin {
            state: PetriState::Login,
            login: LoginPlugin::build(),
            my_player_id,
            replica: Replica::new(),
        }
    }

    /// Where the client is.
    pub fn state(&self) -> (s: PetriState)
        ensures
            s == self@.state,
    {
        self.state
    }

    /// The login as typed so far.
    pub fn login(&self) -> (l: &CurrentUserLogin)
        ensures
            l.0@ == self@.login,
    {
        &self.login
    }

    /// The identifier under which the client connects.
    pub fn my_player_id(&self) -> (id: u64)
        ensures
            id == self@.my_player_id,
    {
        self.my_player_id
    }

    /// Notes the identifier under which the client has connected. Nothing else
    /// changes.
    pub fn connected_as(&mut self, my_player_id: u64)
        ensures
            final(self)@ == (ClientView { my_player_id, ..old(self)@ }),
    {
        self.my_player_id = my_player_id;
    }

    /// The client's copy of the world.
    pub fn replica(&self) -> (r: &Replica)
        ensures
            r@ == self@.replica,
    {
        &self.replica
    }

    /// Takes the login screen's input of one frame. At the login screen the input
    /// goes to the login, and the client enters the scene once the login is
    /// submitted; in the scene the input is not for the login, and nothing changes.
    /// Returns whether the client has just entered the scene.
    pub fn login_input(&mut self, keys: &Vec<LoginKey>, chars: &Vec<String>) -> (entered: bool)
        ensures
            entered == (old(self)@.state == PetriState::Login && keys_submit(
                old(self)@.login,
                keys@,
            )),
            final(self)@ == (if old(self)@.state == PetriState::Scene {
                old(self)@
            } else if entered {
                ClientView {
                    state: PetriState::Scene,
                    login: after_keys(old(self)@.login, keys@),
                    ..old(self)@
                }
            } else {
                ClientView {
                    login: typed(after_keys(old(self)@.login, keys@), chars@),
                    ..old(self)@
                }
            }),
    {
        match self.state {
            PetriState::Scene => false,
            PetriState::Login => {
                let submitted = LoginPlugin::login_input(&mut self.login, keys, chars);
                if submitted {
                    self.state = PetriState::Scene;
                }
                submitted
            },
        }
    }

    /// Takes the updates of one broadcast into the copy of the world, and decides how
    /// the entities that have just got their appearance are to be shown. At the
    /// login screen there is no world yet, and the updates are dropped.
    pub fn receive(&mut self, updates: &Vec<Update>) -> (shown: Vec<Hydrated>)
        ensures
            final(self)@ == (if old(self)@.state == PetriState::Scene {
                ClientView {
                    replica: apply_updates(old(self)@.replica, update_views(updates@)),
                    ..old(self)@
                }
            } else {
                old(self)@
            }),
            shown@ == (if old(self)@.state == PetriState::Scene {
                hydrations(
                    final(self)@.replica,
                    appearances_added(old(self)@.replica, update_views(updates@)),
                    old(self)@.my_player_id,
                )
            } else {
                Seq::empty()
            }),
    {
        match self.state {
            PetriState::Login => Vec::new(),
            PetriState::Scene => {
                let added = self.replica.apply_all(updates);
                hydrate_entities(&self.replica, &added, self.my_player_id)
            },
        }
    }
}

} // verus!
