//! The server as a whole: the world, the sessions, the inbox and the replication
//! table, and the three steps of a tick.

use vstd::prelude::*;
use crate::enemy::{monster, EnemyPlugin};
use crate::events::{AdminCommand, Aim, FromClient, MoveDirection, ServerEvent, SetName};
use crate::geometry::Vec3;
use crate::inbox::EventQueue;
use crate::invariants::{
    lemma_client_events_keep, lemma_reports_keep, lemma_same_players_keep,
    lemma_settling_keeps_players, sessions_hold,
};
use crate::lifecycle::{
    after_events, connected_after, in_spawn_region, leaves_are_known, reports_applied,
    server_event_system, ServerView,
};
use crate::replication::{
    deltas, snapshot_of, update_views, visible, ReplicationTable, TableView, Update, UpdateView,
};
use crate::sessions::{PlayerMap, Session};
use crate::systems::{
    after_aims, after_names, aims_set_aside, apply_aim, handle_admin_commands, kill_y,
    move_clients, move_orders, move_poltergeists, receive_names, walls, without_fallen,
    MoveOutcome,
};
use crate::world::{World, WorldView};

verus! {

/// A run of client identifiers without every occurrence of one of them.
pub open spec fn without(ids: Seq<u64>, client_id: u64) -> Seq<u64>
    decreases ids.len(),
{
    if ids.len() == 0 {
        Seq::empty()
    } else if ids.last() == client_id {
        without(ids.drop_last(), client_id)
    } else {
        without(ids.drop_last(), client_id).push(ids.last())
    }
}

/// The clients that still wait for their first broadcast after a run of reports: a
/// client that connects joins the end of the line, a client that leaves leaves the
/// line.
pub open spec fn newcomers_after(newcomers: Seq<u64>, events: Seq<ServerEvent>) -> Seq<u64>
    decreases events.len(),
{
    if events.len() == 0 {
        newcomers
    } else {
        let before = newcomers_after(newcomers, events.drop_last());
        match events.last() {
            ServerEvent::ClientConnected { client_id } => without(before, client_id).push(
                client_id,
            ),
            ServerEvent::ClientDisconnected { client_id } => without(before, client_id),
        }
    }
}

/// Takes every occurrence of a client out of the line.
fn strike(ids: &Vec<u64>, client_id: u64) -> (rest: Vec<u64>)
    ensures
        rest@ == without(ids@, client_id),
{
    let mut rest: Vec<u64> = Vec::new();
    let mut i: usize = 0;
    while i < ids.len()
        invariant
            i <= ids.len(),
            rest@ == without(ids@.take(i as int), client_id),
        decreases ids.len() - i,
    {
        proof {
            assert(ids@.take(i + 1).drop_last() =~= ids@.take(i as int));
        }
        if ids[i] != client_id {
            rest.push(ids[i]);
        }
        i = i + 1;
    }
    proof {
        assert(ids@.take(i as int) =~= ids@);
    }
    rest
}

/// Follows the reports of one tick in the line of clients that wait for their first
/// broadcast.
pub fn track_newcomers(newcomers: &mut Vec<u64>, events: &Vec<ServerEvent>)
    ensures
        final(newcomers)@ == newcomers_after(old(newcomers)@, events@),
{
    let mut i: usize = 0;
    while i < events.len()
        invariant
            i <= events.len(),
            newcomers@ == newcomers_after(old(newcomers)@, events@.take(i as int)),
        decreases events.len() - i,
    {
        proof {
            assert(events@.take(i + 1).drop_last() =~= events@.take(i as int));
        }
        match events[i] {
            ServerEvent::ClientConnected { client_id } => {
                let mut rest = strike(newcomers, client_id);
                rest.push(client_id);
                *newcomers = rest;
            },
            ServerEvent::ClientDisconnected { client_id } => {
                let rest = strike(newcomers, client_id);
                *newcomers = rest;
            },
        }
        i = i + 1;
    }
    proof {
        assert(events@.take(i as int) =~= events@);
    }
}

/// The client events that have arrived and wait for the next tick, by kind.
pub struct ClientInbox {
    pub admin_commands: EventQueue<AdminCommand>,
    pub moves: EventQueue<MoveDirection>,
    pub names: EventQueue<SetName>,
    pub aims: EventQueue<Aim>,
}

impl ClientInbox {
    /// An inbox without events.
    pub fn new() -> (inbox: ClientInbox)
        ensures
            inbox.is_empty(),
    {
        ClientInbox {
            admin_commands: EventQueue::new(),
            moves: EventQueue::new(),
            names: EventQueue::new(),
            aims: EventQueue::new(),
        }
    }

    /// Whether no event waits.
    pub open spec fn is_empty(&self) -> bool {
        &&& self.admin_commands@.len() == 0
        &&& self.moves@.len() == 0
        &&& self.names@.len() == 0
        &&& self.aims@.len() == 0
    }
}

/// What the server hands to the simulation and to the log after the first half of a
/// tick.
#[derive(Debug)]
pub struct TickOutcome {
    /// The pushes that the simulation is to give.
    pub moves: MoveOutcome,
    /// The senders of the aim events that found no target.
    pub aims_set_aside: Vec<u64>,
    /// How many boxes the commands made.
    pub boxes_made: usize,
}

/// What goes out to the clients at the end of a tick.
#[derive(Debug)]
pub struct Broadcast {
    /// For every client that had a broadcast before: what has changed since.
    pub updates: Vec<Update>,
    /// For every newcomer: the whole world.
    pub snapshot: Vec<Update>,
    /// The newcomers, in the order in which they connected.
    pub newcomers: Vec<u64>,
}

/// The number of the tick after tick `tick`. The count stops at the end of its range.
pub open spec fn next_tick(tick: u64) -> u64 {
    if tick < u64::MAX {
        (tick + 1) as u64
    } else {
        tick
    }
}

/// The world after the client events of one tick: the names are given, then the
/// aims are set, then the walls are built.
pub open spec fn after_client_events(
    world: WorldView,
    sessions: Map<u64, Session>,
    names: Seq<FromClient<SetName>>,
    aims: Seq<FromClient<Aim>>,
    commands: Seq<FromClient<AdminCommand>>,
) -> WorldView {
    after_aims(after_names(world, names), sessions, aims).spawn_all(walls(commands))
}

/// Whether a server that started the first half of tick `tick` in the state `start`,
/// with the events in `inbox` waiting, and was handed `reports`, has ended it in the
/// state `end` with the outcome `outcome`, the connecting clients having spawned at
/// the points of `spawns`. The reports are applied first; then the names are given,
/// the movement events are sorted, the aims are set, and the walls are built.
pub open spec fn tick_matches(
    start: ServerView,
    inbox: ClientInbox,
    reports: Seq<ServerEvent>,
    spawns: Seq<Vec3>,
    tick: u64,
    end: ServerView,
    outcome: TickOutcome,
) -> bool {
    let reported = after_events(start, reports, spawns, tick);
    let named = after_names(reported.world, inbox.names@);
    &&& spawns.len() == reports.len()
    &&& forall|i: int| 0 <= i < spawns.len() ==> in_spawn_region(#[trigger] spawns[i])
    &&& end.sessions == reported.sessions
    &&& end.world == after_client_events(
        reported.world,
        end.sessions,
        inbox.names@,
        inbox.aims@,
        inbox.admin_commands@,
    )
    &&& outcome.moves.orders@ == move_orders(named, end.sessions, inbox.moves@)
    &&& outcome.moves.poltergeists@ == move_poltergeists(named, end.sessions, inbox.moves@)
    &&& outcome.aims_set_aside@ == aims_set_aside(named, end.sessions, inbox.aims@)
    &&& outcome.boxes_made == walls(inbox.admin_commands@).len()
}

/// The server: the world, the sessions, the inbox, and what was last sent.
pub struct PetriServerPlugin {
    pub world: World,
    pub player_map: PlayerMap,
    pub inbox: ClientInbox,
    pub table: ReplicationTable,
    /// The clients that have connected since the last broadcast.
    pub newcomers: Vec<u64>,
    /// The number of the current tick.
    pub tick: u64,
}

impl PetriServerPlugin {
    /// The invariant of the server: the world and the session table are in order,
    /// and every session names the entity that was made for its client.
    pub open spec fn wf(&self) -> bool {
        &&& self.world.wf()
        &&& self.player_map.wf()
        &&& sessions_hold(self.world@, self.player_map@)
    }

    /// A server before its first tick: the world holds the monster and nothing else,
    /// no client is connected, no event waits, and nothing was sent.
    pub fn build() -> (server: PetriServerPlugin)
        ensures
            server.wf(),
            server.world@ == WorldView::empty().spawn(monster()),
            server.player_map@ == Map::<u64, Session>::empty(),
            server.inbox.is_empty(),
            server.table@ == TableView::empty(),
            server.newcomers@ == Seq::<u64>::empty(),
            server.tick == 0,
    {
        let mut world = World::new();
        EnemyPlugin::build(&mut world);
        PetriServerPlugin {
            world,
            player_map: PlayerMap::new(),
            inbox: ClientInbox::new(),
            table: ReplicationTable::new(),
            newcomers: Vec::new(),
            tick: 0,
        }
    }

    /// The first half of a tick: applies the transport's reports, then drains the
    /// inbox and applies the client events, each kind in the order of arrival. What
    /// is left for the simulation and for the log is returned.
    pub fn update(&mut self, reports: &Vec<ServerEvent>) -> (outcome: TickOutcome)
        requires
            old(self).wf(),
            leaves_are_known(old(self).player_map@.dom(), reports@),
        ensures
            final(self).wf(),
            final(self).tick == next_tick(old(self).tick),
            final(self).inbox.is_empty(),
            final(self).table@ == old(self).table@,
            final(self).newcomers@ == newcomers_after(old(self).newcomers@, reports@),
            final(self).player_map@.dom() == connected_after(old(self).player_map@.dom(), reports@),
            exists|spawns: Seq<Vec3>| #[trigger]
                tick_matches(
                    ServerView { world: old(self).world@, sessions: old(self).player_map@ },
                    old(self).inbox,
                    reports@,
                    spawns,
                    final(self).tick,
                    ServerView { world: final(self).world@, sessions: final(self).player_map@ },
                    outcome,
                ),
    {
        if self.tick < u64::MAX {
            self.tick = self.tick + 1;
        }
        track_newcomers(&mut self.newcomers, reports);
        server_event_system(&mut self.world, &mut self.player_map, reports, self.tick);
        let ghost spawns = choose|spawns: Seq<Vec3>| #[trigger]
            reports_applied(
                ServerView { world: old(self).world@, sessions: old(self).player_map@ },
                reports@,
                spawns,
                self.tick,
                ServerView { world: self.world@, sessions: self.player_map@ },
            );
        let ghost reported = self.world@;
        let handles = self.world.len();
        proof {
            lemma_reports_keep(
                ServerView { world: old(self).world@, sessions: old(self).player_map@ },
                reports@,
                spawns,
                self.tick,
            );
            lemma_client_events_keep(
                reported,
                self.player_map@,
                old(self).inbox.names@,
                old(self).inbox.aims@,
                old(self).inbox.admin_commands@,
            );
            lemma_same_players_keep(
                after_client_events(
                    reported,
                    self.player_map@,
                    old(self).inbox.names@,
                    old(self).inbox.aims@,
                    old(self).inbox.admin_commands@,
                ),
                reported,
                self.player_map@,
            );
        }
        let names = self.inbox.names.recv();
        receive_names(&mut self.world, &names);
        let moves = self.inbox.moves.recv();
        let moved = move_clients(&self.world, &self.player_map, &moves);
        let aims = self.inbox.aims.recv();
        let aims_set_aside = apply_aim(&mut self.world, &self.player_map, &aims);
        let commands = self.inbox.admin_commands.recv();
        let boxes_made = handle_admin_commands(&mut self.world, &commands);
        let outcome = TickOutcome { moves: moved, aims_set_aside, boxes_made };
        assert(tick_matches(
            ServerView { world: old(self).world@, sessions: old(self).player_map@ },
            old(self).inbox,
            reports@,
            spawns,
            self.tick,
            ServerView { world: self.world@, sessions: self.player_map@ },
            outcome,
        ));
        outcome
    }

    /// The second half of a tick, after the simulation has moved the entities:
    /// publishes the positions, and clears away what has fallen out of the world.
    pub fn settle(&mut self)
        requires
            old(self).wf(),
        ensures
            final(self).wf(),
            final(self).world@ == without_fallen(old(self).world@.publish_positions()),
            final(self).player_map@ == old(self).player_map@,
            final(self).table@ == old(self).table@,
            final(self).newcomers@ == old(self).newcomers@,
            final(self).tick == old(self).tick,
            final(self).inbox == old(self).inbox,
    {
        proof {
            lemma_settling_keeps_players(self.world@);
            lemma_same_players_keep(
                without_fallen(self.world@.publish_positions()),
                self.world@,
                self.player_map@,
            );
        }
        self.world.update_player_pos();
        kill_y(&mut self.world);
    }

    /// The end of a tick: works out what goes to the clients. Every client that had
    /// a broadcast before gets what has changed since; every newcomer gets the whole
    /// world. After this, every connected client holds the world as it is now.
    pub fn broadcast(&mut self) -> (out: Broadcast)
        ensures
            old(self).wf() ==> final(self).wf(),
            update_views(out.updates@) == deltas(old(self).table@, old(self).world@),
            update_views(out.snapshot@) == (if old(self).newcomers@.len() > 0 {
                snapshot_of(old(self).world@)
            } else {
                Seq::<UpdateView>::empty()
            }),
            out.newcomers@ == old(self).newcomers@,
            final(self).newcomers@ == Seq::<u64>::empty(),
            final(self).table@ == (TableView {
                sent: visible(old(self).world@),
                dirty: Seq::empty(),
            }),
            final(self).world == old(self).world,
            final(self).player_map == old(self).player_map,
            final(self).inbox == old(self).inbox,
            final(self).tick == old(self).tick,
    {
        let updates = self.table.collect(&self.world);
        let snapshot = if self.newcomers.len() > 0 {
            ReplicationTable::snapshot(&self.world)
        } else {
            let none: Vec<Update> = Vec::new();
            assert(update_views(none@) =~= Seq::<UpdateView>::empty());
            none
        };
        let mut newcomers: Vec<u64> = Vec::new();
        core::mem::swap(&mut self.newcomers, &mut newcomers);
        Broadcast { updates, snapshot, newcomers }
    }
}

} // verus!
