//! What stays true of the server's state from tick to tick: every session names the
//! entity that was made for its client, and no entity plays a client that has no
//! session.

use vstd::prelude::*;
use crate::events::{AdminCommand, Aim, FromClient, ServerEvent, SetName};
use crate::geometry::Vec3;
use crate::records::{Appearance, Player, RecordSetView, Tint};
use crate::lifecycle::{
    after_event, after_events, lemma_sessions_follow_reports, orderly, player_records, ServerView,
};
use crate::server::after_client_events;
use crate::systems::{after_aim, after_aims, after_names, walls, without_fallen};
use crate::sessions::Session;
use crate::world::{lemma_despawn_keeps_wf, WorldView};

verus! {

/// Whether records are those of the entity of the given client: they carry the
/// client's identifier, the colour that belongs to it, and the shape of a player.
pub open spec fn plays(records: RecordSetView, client_id: u64) -> bool {
    &&& records.player == Some(Player(client_id))
    &&& records.tint == Some(Tint::spec_for_client(client_id))
    &&& records.appearance == Some(Appearance::Capsule)
}

/// Every session names a handle that the world has given out, and the entity under
/// it, while it lives, plays the session's client.
pub open spec fn sessions_hold(world: WorldView, sessions: Map<u64, Session>) -> bool {
    forall|id: u64| #[trigger]
        sessions.contains_key(id) ==> sessions[id].entity.0 < world.slots.len() && (world.alive(
            sessions[id].entity,
        ) ==> plays(world.get(sessions[id].entity).records, id))
}

/// No ghosts: every live entity that carries a client's identifier is the entity
/// that the client's session names.
pub open spec fn no_ghosts(world: WorldView, sessions: Map<u64, Session>) -> bool {
    forall|i: int|
        0 <= i < world.slots.len() ==> match #[trigger] world.slots[i] {
            Some(d) => match d.records.player {
                Some(p) => sessions.contains_key(p.0) && sessions[p.0].entity.0 == i,
                None => true,
            },
            None => true,
        }
}

/// Whether a world came from another by changes that leave the entities in their
/// slots, alive, and leave alone what says whose entity each is.
pub open spec fn same_players(after: WorldView, before: WorldView) -> bool {
    &&& after.slots.len() >= before.slots.len()
    &&& forall|i: int|
        0 <= i < before.slots.len() ==> match (#[trigger] after.slots[i], before.slots[i]) {
            (Some(a), Some(b)) => a.records.player == b.records.player && a.records.tint
                == b.records.tint && a.records.appearance == b.records.appearance,
            (None, _) => true,
            (Some(_), None) => false,
        }
    &&& forall|i: int|
        before.slots.len() <= i < after.slots.len() ==> match #[trigger] after.slots[i] {
            Some(a) => a.records.player is None,
            None => true,
        }
}

/// Changes that leave alone what says whose entity each is keep the sessions right
/// and make no ghosts.
pub proof fn lemma_same_players_keep(
    after: WorldView,
    before: WorldView,
    sessions: Map<u64, Session>,
)
    requires
        same_players(after, before),
    ensures
        sessions_hold(before, sessions) ==> sessions_hold(after, sessions),
        no_ghosts(before, sessions) ==> no_ghosts(after, sessions),
{
    if sessions_hold(before, sessions) {
        assert forall|id: u64| #[trigger] sessions.contains_key(id) implies sessions[id].entity.0
            < after.slots.len() && (after.alive(sessions[id].entity) ==> plays(
            after.get(sessions[id].entity).records,
            id,
        )) by {
            let i = sessions[id].entity.0 as int;
            assert(after.slots[i] is Some ==> before.slots[i] is Some);
        }
    }
    if no_ghosts(before, sessions) {
        assert forall|i: int| 0 <= i < after.slots.len() implies match #[trigger] after.slots[i] {
            Some(d) => match d.records.player {
                Some(p) => sessions.contains_key(p.0) && sessions[p.0].entity.0 == i,
                None => true,
            },
            None => true,
        } by {
            if i < before.slots.len() {
                assert(after.slots[i] is Some ==> before.slots[i] is Some);
            }
        }
    }
}

/// Giving names leaves alone what says whose entity each is.
pub proof fn lemma_names_keep_players(world: WorldView, names: Seq<FromClient<SetName>>)
    ensures
        same_players(after_names(world, names), world),
{
}

/// Setting aims leaves alone what says whose entity each is.
pub proof fn lemma_aims_keep_players(
    world: WorldView,
    sessions: Map<u64, Session>,
    aims: Seq<FromClient<Aim>>,
)
    ensures
        same_players(after_aims(world, sessions, aims), world),
    decreases aims.len(),
{
    if aims.len() > 0 {
        lemma_aims_keep_players(world, sessions, aims.drop_last());
        let before = after_aims(world, sessions, aims.drop_last());
        let after = after_aim(before, sessions, aims.last());
        assert(same_players(after, before));
        lemma_same_players_chain(after, before, world);
    }
}

/// Two changes that each leave alone what says whose entity each is do so together.
pub proof fn lemma_same_players_chain(last: WorldView, middle: WorldView, first: WorldView)
    requires
        same_players(last, middle),
        same_players(middle, first),
    ensures
        same_players(last, first),
{
    assert forall|i: int| 0 <= i < first.slots.len() implies match (
        #[trigger] last.slots[i],
        first.slots[i],
    ) {
        (Some(a), Some(b)) => a.records.player == b.records.player && a.records.tint
            == b.records.tint && a.records.appearance == b.records.appearance,
        (None, _) => true,
        (Some(_), None) => false,
    } by {
        if last.slots[i] is Some {
            assert(middle.slots[i] is Some);
        }
    }
    assert forall|i: int| first.slots.len() <= i < last.slots.len() implies match #[trigger] last.slots[i] {
        Some(a) => a.records.player is None,
        None => true,
    } by {
        if i < middle.slots.len() && last.slots[i] is Some {
            assert(middle.slots[i] is Some);
        }
    }
}

/// Building walls leaves alone what says whose entity each is: a box plays no client.
pub proof fn lemma_walls_keep_players(world: WorldView, commands: Seq<FromClient<AdminCommand>>)
    ensures
        same_players(world.spawn_all(walls(commands)), world),
    decreases commands.len(),
{
    let made = walls(commands);
    assert forall|k: int| 0 <= k < made.len() implies (#[trigger] made[k]).records.player is None by {
        lemma_boxes_play_no_client(commands, k);
    }
}

/// No box of a wall carries a client's identifier.
pub proof fn lemma_boxes_play_no_client(commands: Seq<FromClient<AdminCommand>>, k: int)
    requires
        0 <= k < walls(commands).len(),
    ensures
        walls(commands)[k].records.player is None,
    decreases commands.len(),
{
    if commands.len() > 0 {
        let earlier = walls(commands.drop_last());
        if k < earlier.len() {
            lemma_boxes_play_no_client(commands.drop_last(), k);
        }
    }
}

/// Publishing positions and clearing away what has fallen leave alone what says
/// whose entity each is.
pub proof fn lemma_settling_keeps_players(world: WorldView)
    ensures
        same_players(without_fallen(world.publish_positions()), world),
{
}

/// The client events of a tick keep the sessions right and make no ghosts.
pub proof fn lemma_client_events_keep(
    world: WorldView,
    sessions: Map<u64, Session>,
    names: Seq<FromClient<SetName>>,
    aims: Seq<FromClient<Aim>>,
    commands: Seq<FromClient<AdminCommand>>,
)
    ensures
        same_players(after_client_events(world, sessions, names, aims, commands), world),
{
    let named = after_names(world, names);
    let aimed = after_aims(named, sessions, aims);
    lemma_names_keep_players(world, names);
    lemma_aims_keep_players(named, sessions, aims);
    lemma_walls_keep_players(aimed, commands);
    lemma_same_players_chain(aimed, named, world);
    lemma_same_players_chain(aimed.spawn_all(walls(commands)), aimed, world);
}

/// A report of the transport keeps the sessions right.
pub proof fn lemma_report_keeps_sessions(s: ServerView, event: ServerEvent, at: Vec3, now: u64)
    requires
        event is ClientConnected ==> s.world.slots.len() < usize::MAX,
        sessions_hold(s.world, s.sessions),
    ensures
        sessions_hold(after_event(s, event, at, now).world, after_event(s, event, at, now).sessions),
{
    let end = after_event(s, event, at, now);
    assert forall|id: u64| #[trigger] end.sessions.contains_key(id) implies end.sessions[id].entity.0
        < end.world.slots.len() && (end.world.alive(end.sessions[id].entity) ==> plays(
        end.world.get(end.sessions[id].entity).records,
        id,
    )) by {
        match event {
            ServerEvent::ClientConnected { client_id } => {
                if id != client_id {
                    assert(s.sessions.contains_key(id));
                    let i = s.sessions[id].entity.0 as int;
                    assert(end.world.slots[i] == s.world.slots[i]);
                } else {
                    let i = s.world.slots.len() as int;
                    assert(end.sessions[id].entity.0 == i);
                    assert(end.world.slots[i]->0.records == player_records(id));
                }
            },
            ServerEvent::ClientDisconnected { client_id } => {
                assert(s.sessions.contains_key(id));
                let i = s.sessions[id].entity.0 as int;
                assert(end.world.slots[i] is None || end.world.slots[i] == s.world.slots[i]);
            },
        }
    }
}

/// A report of the transport makes no ghost, as long as a client connects only while
/// it has no session: the entity of a client that leaves goes with its session.
pub proof fn lemma_report_makes_no_ghost(s: ServerView, event: ServerEvent, at: Vec3, now: u64)
    requires
        event is ClientConnected ==> s.world.slots.len() < usize::MAX,
        s.world.wf(),
        sessions_hold(s.world, s.sessions),
        no_ghosts(s.world, s.sessions),
        match event {
            ServerEvent::ClientConnected { client_id } => !s.sessions.contains_key(client_id),
            ServerEvent::ClientDisconnected { client_id } => s.sessions.contains_key(client_id),
        },
    ensures
        no_ghosts(after_event(s, event, at, now).world, after_event(s, event, at, now).sessions),
{
    let end = after_event(s, event, at, now);
    assert forall|i: int| 0 <= i < end.world.slots.len() implies match #[trigger] end.world.slots[i] {
        Some(d) => match d.records.player {
            Some(p) => end.sessions.contains_key(p.0) && end.sessions[p.0].entity.0 == i,
            None => true,
        },
        None => true,
    } by {
        match event {
            ServerEvent::ClientConnected { client_id } => {
                if i < s.world.slots.len() {
                    assert(end.world.slots[i] == s.world.slots[i]);
                    if let Some(d) = s.world.slots[i] {
                        if let Some(p) = d.records.player {
                            assert(s.sessions.contains_key(p.0));
                            assert(p.0 != client_id);
                        }
                    }
                } else {
                    assert(end.world.slots[i]->0.records == player_records(
                        client_id,
                    ));
                    assert(end.sessions[client_id].entity.0 == i);
                }
            },
            ServerEvent::ClientDisconnected { client_id } => {
                let gone = s.sessions[client_id].entity;
                if let Some(d) = end.world.slots[i] {
                    assert(!s.world.descends(i, gone.0 as int));
                    assert(s.world.slots[i] == Some(d));
                    if let Some(p) = d.records.player {
                        assert(s.sessions.contains_key(p.0) && s.sessions[p.0].entity.0 == i);
                        if p.0 == client_id {
                            assert(gone.0 == i);
                            assert(s.world.descends(i, gone.0 as int));
                        }
                    }
                }
            },
        }
    }
}

/// The reports of a tick keep the sessions right. An orderly run of reports makes no
/// ghost: once a client has left, no live entity carries its identifier.
pub proof fn lemma_reports_keep(
    s: ServerView,
    events: Seq<ServerEvent>,
    spawns: Seq<Vec3>,
    now: u64,
)
    requires
        spawns.len() == events.len(),
        after_events(s, events, spawns, now).world.slots.len() <= usize::MAX,
        s.world.wf(),
        sessions_hold(s.world, s.sessions),
    ensures
        s.world.slots.len() <= after_events(s, events, spawns, now).world.slots.len(),
        after_events(s, events, spawns, now).world.wf(),
        sessions_hold(
            after_events(s, events, spawns, now).world,
            after_events(s, events, spawns, now).sessions,
        ),
        no_ghosts(s.world, s.sessions) && orderly(s.sessions.dom(), events) ==> no_ghosts(
            after_events(s, events, spawns, now).world,
            after_events(s, events, spawns, now).sessions,
        ),
    decreases events.len(),
{
    if events.len() > 0 {
        let before = after_events(s, events.drop_last(), spawns.drop_last(), now);
        lemma_reports_keep(s, events.drop_last(), spawns.drop_last(), now);
        lemma_report_keeps_sessions(before, events.last(), spawns.last(), now);
        match events.last() {
            ServerEvent::ClientConnected { client_id } => {},
            ServerEvent::ClientDisconnected { client_id } => {
                lemma_despawn_keeps_wf(before.world, before.sessions[client_id].entity);
            },
        }
        if no_ghosts(s.world, s.sessions) && orderly(s.sessions.dom(), events) {
            lemma_sessions_follow_reports(s, events.drop_last(), spawns.drop_last(), now);
            lemma_report_makes_no_ghost(before, events.last(), spawns.last(), now);
        }
    }
}

} // verus!
