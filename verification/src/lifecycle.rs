//! The connection lifecycle: what the transport's reports do to the session table and
//! to the world. A client that connects gets an entity; a client that leaves takes
//! its entity along.

use vstd::prelude::*;
use crate::events::ServerEvent;
use crate::geometry::Vec3;
use crate::records::{Appearance, Player, Record, RecordSetView, ReplicationBundle, Tint};
use crate::sessions::{PlayerMap, Session};
use crate::world::{Entity, EntityView, World, WorldView};

verus! {

/// The lowest spawn coordinate, in thousandths.
pub const SPAWN_MIN: i32 = 1500;

/// The height at which clients spawn, in thousandths.
pub const SPAWN_HEIGHT: i32 = 2500;

/// The mathematical value of the server's state: the world and the session table.
pub struct ServerView {
    pub world: WorldView,
    pub sessions: Map<u64, Session>,
}

/// The ground coordinate that a random sample stands for. The upper 24 bits of the
/// sample are read as a fraction of the spawn region's width.
pub open spec fn spec_spawn_coordinate(sample: u32) -> int {
    1500 + ((sample as int / 256) * 3000) / 16777216
}

/// Whether a point lies in the region in which clients spawn.
pub open spec fn in_spawn_region(at: Vec3) -> bool {
    1500 <= at.x < 4500 && at.y == 2500 && 1500 <= at.z < 4500
}

/// The records that the entity of a newly connected client holds.
pub open spec fn player_records(client_id: u64) -> RecordSetView {
    RecordSetView {
        player: Some(Player(client_id)),
        ..ReplicationBundle::spec_new(
            Tint::spec_for_client(client_id),
            Appearance::Capsule,
        ).spec_records()
    }
}

/// The state after a client has connected and spawned at `at` during tick `now`.
pub open spec fn connected(s: ServerView, client_id: u64, at: Vec3, now: u64) -> ServerView {
    ServerView {
        world: s.world.spawn(
            EntityView {
                parent: None,
                transform: at,
                moved: true,
                records: player_records(client_id),
            },
        ),
        sessions: s.sessions.insert(
            client_id,
            Session { entity: Entity(s.world.slots.len() as usize), connected_at: now },
        ),
    }
}

/// The state after a connected client has left: its session is struck, and its
/// entity is gone with everything that entity owned.
pub open spec fn disconnected(s: ServerView, client_id: u64) -> ServerView
    recommends
        s.sessions.contains_key(client_id),
{
    ServerView {
        world: s.world.despawn(s.sessions[client_id].entity),
        sessions: s.sessions.remove(client_id),
    }
}

/// The state after one report of the transport.
pub open spec fn after_event(s: ServerView, event: ServerEvent, at: Vec3, now: u64) -> ServerView {
    match event {
        ServerEvent::ClientConnected { client_id } => connected(s, client_id, at, now),
        ServerEvent::ClientDisconnected { client_id } => disconnected(s, client_id),
    }
}

/// The state after a run of reports: the client of the `i`-th report, where that
/// report says that a client connected, spawns at `spawns[i]`.
pub open spec fn after_events(
    s: ServerView,
    events: Seq<ServerEvent>,
    spawns: Seq<Vec3>,
    now: u64,
) -> ServerView
    recommends
        spawns.len() == events.len(),
    decreases events.len(),
{
    if events.len() == 0 {
        s
    } else {
        after_event(
            after_events(s, events.drop_last(), spawns.drop_last(), now),
            events.last(),
            spawns.last(),
            now,
        )
    }
}

/// The clients that are connected after a run of reports.
pub open spec fn connected_after(ids: Set<u64>, events: Seq<ServerEvent>) -> Set<u64>
    decreases events.len(),
{
    if events.len() == 0 {
        ids
    } else {
        match events.last() {
            ServerEvent::ClientConnected { client_id } => connected_after(
                ids,
                events.drop_last(),
            ).insert(client_id),
            ServerEvent::ClientDisconnected { client_id } => connected_after(
                ids,
                events.drop_last(),
            ).remove(client_id),
        }
    }
}

/// Whether every report that a client left concerns a client that is connected when
/// the report is reached.
pub open spec fn leaves_are_known(ids: Set<u64>, events: Seq<ServerEvent>) -> bool
    decreases events.len(),
{
    events.len() == 0 || (leaves_are_known(ids, events.drop_last()) && match events.last() {
        ServerEvent::ClientConnected { client_id } => true,
        ServerEvent::ClientDisconnected { client_id } => connected_after(
            ids,
            events.drop_last(),
        ).contains(client_id),
    })
}

/// The client that a report is about.
pub open spec fn subject(event: ServerEvent) -> u64 {
    match event {
        ServerEvent::ClientConnected { client_id } => client_id,
        ServerEvent::ClientDisconnected { client_id } => client_id,
    }
}

/// Whether a client is connected after a run of reports: the last report about the
/// client decides; without one, the client is as it was.
pub open spec fn connected_at_end(was: bool, events: Seq<ServerEvent>, client_id: u64) -> bool
    decreases events.len(),
{
    if events.len() == 0 {
        was
    } else if subject(events.last()) == client_id {
        events.last() is ClientConnected
    } else {
        connected_at_end(was, events.drop_last(), client_id)
    }
}

/// The clients that are connected after a run of reports are those for which the
/// last report about them says so, or which were connected and are not reported on.
pub proof fn lemma_connected_at_end(ids: Set<u64>, events: Seq<ServerEvent>, client_id: u64)
    ensures
        connected_after(ids, events).contains(client_id) == connected_at_end(
            ids.contains(client_id),
            events,
            client_id,
        ),
    decreases events.len(),
{
    if events.len() > 0 {
        lemma_connected_at_end(ids, events.drop_last(), client_id);
    }
}

/// Finds out whether a client is connected after the first `n` of the reports.
fn connected_after_prefix(
    player_map: &PlayerMap,
    events: &Vec<ServerEvent>,
    n: usize,
    client_id: u64,
) -> (b: bool)
    requires
        n <= events.len(),
    ensures
        b == connected_after(player_map@.dom(), events@.take(n as int)).contains(client_id),
{
    let mut i: usize = n;
    proof {
        lemma_connected_at_end(player_map@.dom(), events@.take(n as int), client_id);
    }
    while i > 0
        invariant
            i <= n <= events.len(),
            connected_after(player_map@.dom(), events@.take(n as int)).contains(client_id)
                == connected_at_end(
                player_map@.contains_key(client_id),
                events@.take(n as int),
                client_id,
            ),
            connected_at_end(
                player_map@.contains_key(client_id),
                events@.take(n as int),
                client_id,
            ) == connected_at_end(
                player_map@.contains_key(client_id),
                events@.take(i as int),
                client_id,
            ),
        decreases i,
    {
        proof {
            assert(events@.take(i as int).drop_last() =~= events@.take(i - 1));
            assert(events@.take(i as int).last() == events@[i - 1]);
        }
        match events[i - 1] {
            ServerEvent::ClientConnected { client_id: id } => {
                if id == client_id {
                    return true;
                }
            },
            ServerEvent::ClientDisconnected { client_id: id } => {
                if id == client_id {
                    return false;
                }
            },
        }
        i = i - 1;
    }
    proof {
        assert(events@.take(0).len() == 0);
    }
    player_map.is_connected(client_id)
}

/// Checks that the server can apply a run of reports: that every report of a leave
/// is about a client that is connected when the report is reached.
pub fn reports_can_be_applied(player_map: &PlayerMap, events: &Vec<ServerEvent>) -> (ok: bool)
    ensures
        ok == leaves_are_known(player_map@.dom(), events@),
{
    let mut i: usize = 0;
    proof {
        assert(events@.take(0).len() == 0);
    }
    while i < events.len()
        invariant
            i <= events.len(),
            leaves_are_known(player_map@.dom(), events@.take(i as int)),
        decreases events.len() - i,
    {
        proof {
            assert(events@.take(i + 1).drop_last() =~= events@.take(i as int));
            assert(events@.take(i + 1).last() == events@[i as int]);
        }
        match events[i] {
            ServerEvent::ClientConnected { .. } => {},
            ServerEvent::ClientDisconnected { client_id } => {
                if !connected_after_prefix(player_map, events, i, client_id) {
                    proof {
                        if leaves_are_known(player_map@.dom(), events@) {
                            lemma_leaves_known_prefix(player_map@.dom(), events@, i + 1);
                        }
                    }
                    return false;
                }
            },
        }
        i = i + 1;
    }
    proof {
        assert(events@.take(i as int) =~= events@);
    }
    true
}

/// Whether a run of reports is orderly: a client connects only while it is not
/// connected, and leaves only while it is.
pub open spec fn orderly(ids: Set<u64>, events: Seq<ServerEvent>) -> bool
    decreases events.len(),
{
    events.len() == 0 || (orderly(ids, events.drop_last()) && match events.last() {
        ServerEvent::ClientConnected { client_id } => !connected_after(
            ids,
            events.drop_last(),
        ).contains(client_id),
        ServerEvent::ClientDisconnected { client_id } => connected_after(
            ids,
            events.drop_last(),
        ).contains(client_id),
    })
}

/// How many of the reports say that a client connected.
pub open spec fn connects(events: Seq<ServerEvent>) -> nat
    decreases events.len(),
{
    if events.len() == 0 {
        0
    } else {
        connects(events.drop_last()) + (match events.last() {
            ServerEvent::ClientConnected { .. } => 1nat,
            ServerEvent::ClientDisconnected { .. } => 0nat,
        })
    }
}

/// How many of the reports say that a client left.
pub open spec fn leaves(events: Seq<ServerEvent>) -> nat
    decreases events.len(),
{
    if events.len() == 0 {
        0
    } else {
        leaves(events.drop_last()) + (match events.last() {
            ServerEvent::ClientConnected { .. } => 0nat,
            ServerEvent::ClientDisconnected { .. } => 1nat,
        })
    }
}

/// After an orderly run of reports, the number of connected clients is the number
/// there was, plus the clients that connected, minus the clients that left.
pub proof fn lemma_session_count(ids: Set<u64>, events: Seq<ServerEvent>)
    requires
        ids.finite(),
        orderly(ids, events),
    ensures
        connected_after(ids, events).finite(),
        connected_after(ids, events).len() + leaves(events) == ids.len() + connects(events),
    decreases events.len(),
{
    if events.len() > 0 {
        lemma_session_count(ids, events.drop_last());
    }
}

/// In an orderly run of reports every leave is known, so the server can apply it.
pub proof fn lemma_orderly_leaves_are_known(ids: Set<u64>, events: Seq<ServerEvent>)
    requires
        orderly(ids, events),
    ensures
        leaves_are_known(ids, events),
    decreases events.len(),
{
    if events.len() > 0 {
        lemma_orderly_leaves_are_known(ids, events.drop_last());
    }
}

/// The sessions that the state holds after a run of reports are those of the clients
/// that are connected after it.
pub proof fn lemma_sessions_follow_reports(
    s: ServerView,
    events: Seq<ServerEvent>,
    spawns: Seq<Vec3>,
    now: u64,
)
    requires
        spawns.len() == events.len(),
    ensures
        after_events(s, events, spawns, now).sessions.dom() == connected_after(
            s.sessions.dom(),
            events,
        ),
    decreases events.len(),
{
    if events.len() > 0 {
        lemma_sessions_follow_reports(s, events.drop_last(), spawns.drop_last(), now);
        let before = after_events(s, events.drop_last(), spawns.drop_last(), now);
        match events.last() {
            ServerEvent::ClientConnected { client_id } => {
                assert(after_events(s, events, spawns, now).sessions.dom() =~= before.sessions.dom().insert(
                    client_id,
                ));
            },
            ServerEvent::ClientDisconnected { client_id } => {
                assert(after_events(s, events, spawns, now).sessions.dom() =~= before.sessions.dom().remove(
                    client_id,
                ));
            },
        }
    }
}

/// `rand::random` for `u32`: a number that depends on chance, so nothing is said of it.
#[verifier::external_body]
fn random_sample() -> u32 {
    rand::random::<u32>()
}

/// Turns a random sample into a ground coordinate of the spawn region.
pub fn spawn_coordinate(sample: u32) -> (c: i32)
    ensures
        c == spec_spawn_coordinate(sample),
        1500 <= c < 4500,
{
    let fraction: u64 = (sample / 256) as u64;
    let scaled: u64 = fraction * 3000 / 16777216;
    SPAWN_MIN + scaled as i32
}

/// The point at which a client spawns, from two random samples.
pub fn spawn_point(sample_x: u32, sample_z: u32) -> (at: Vec3)
    ensures
        at == (Vec3 {
            x: spec_spawn_coordinate(sample_x) as i32,
            y: 2500,
            z: spec_spawn_coordinate(sample_z) as i32,
        }),
        in_spawn_region(at),
{
    Vec3 { x: spawn_coordinate(sample_x), y: SPAWN_HEIGHT, z: spawn_coordinate(sample_z) }
}

/// Takes a client in: makes its entity at `at`, with the colour that belongs to the
/// client's identifier, and enters its session. A session that the identifier still
/// had is replaced.
pub fn client_connected(
    world: &mut World,
    player_map: &mut PlayerMap,
    client_id: u64,
    at: Vec3,
    now: u64,
) -> (entity: Entity)
    requires
        old(world).wf(),
        old(player_map).wf(),
    ensures
        final(world).wf(),
        final(player_map).wf(),
        entity.0 == old(world)@.slots.len(),
        (ServerView { world: final(world)@, sessions: final(player_map)@ }) == connected(
            ServerView { world: old(world)@, sessions: old(player_map)@ },
            client_id,
            at,
            now,
        ),
{
    let bundle = ReplicationBundle::new(Tint::for_client(client_id), Appearance::Capsule);
    let mut records = bundle.records();
    records.insert(Record::Player(Player(client_id)));
    let entity = world.spawn(at, records);
    player_map.insert(client_id, Session { entity, connected_at: now });
    entity
}

/// Lets a connected client go: strikes its session and removes its entity with
/// everything the entity owns. Returns the entity that stood for the client.
pub fn client_disconnected(
    world: &mut World,
    player_map: &mut PlayerMap,
    client_id: u64,
) -> (entity: Entity)
    requires
        old(world).wf(),
        old(player_map).wf(),
        old(player_map)@.contains_key(client_id),
    ensures
        final(world).wf(),
        final(player_map).wf(),
        entity == old(player_map)@[client_id].entity,
        (ServerView { world: final(world)@, sessions: final(player_map)@ }) == disconnected(
            ServerView { world: old(world)@, sessions: old(player_map)@ },
            client_id,
        ),
{
    let session = player_map.remove(client_id).unwrap();
    world.despawn_recursive(session.entity);
    session.entity
}

/// Whether the state `end` is the state `start` after a run of reports of tick `now`,
/// with the points of `spawns`, all in the spawn region, as the places at which the
/// connecting clients spawned.
pub open spec fn reports_applied(
    start: ServerView,
    events: Seq<ServerEvent>,
    spawns: Seq<Vec3>,
    now: u64,
    end: ServerView,
) -> bool {
    &&& spawns.len() == events.len()
    &&& forall|i: int| 0 <= i < spawns.len() ==> in_spawn_region(#[trigger] spawns[i])
    &&& end == after_events(start, events, spawns, now)
}

/// Applies the transport's reports of one tick, in order. Each connecting client
/// spawns at a random point of the spawn region.
pub fn server_event_system(
    world: &mut World,
    player_map: &mut PlayerMap,
    events: &Vec<ServerEvent>,
    now: u64,
)
    requires
        old(world).wf(),
        old(player_map).wf(),
        leaves_are_known(old(player_map)@.dom(), events@),
    ensures
        final(world).wf(),
        final(player_map).wf(),
        final(player_map)@.dom() == connected_after(old(player_map)@.dom(), events@),
        exists|spawns: Seq<Vec3>| #[trigger]
            reports_applied(
                ServerView { world: old(world)@, sessions: old(player_map)@ },
                events@,
                spawns,
                now,
                ServerView { world: final(world)@, sessions: final(player_map)@ },
            ),
{
    let ghost start = ServerView { world: world@, sessions: player_map@ };
    let ghost mut spawns: Seq<Vec3> = Seq::empty();
    let mut i: usize = 0;
    while i < events.len()
        invariant
            i <= events.len(),
            world.wf(),
            player_map.wf(),
            start == (ServerView { world: old(world)@, sessions: old(player_map)@ }),
            leaves_are_known(start.sessions.dom(), events@),
            spawns.len() == i,
            forall|k: int| 0 <= k < spawns.len() ==> in_spawn_region(#[trigger] spawns[k]),
            player_map@.dom() == connected_after(start.sessions.dom(), events@.take(i as int)),
            (ServerView { world: world@, sessions: player_map@ }) == after_events(
                start,
                events@.take(i as int),
                spawns,
                now,
            ),
        decreases events.len() - i,
    {
        let ghost prefix = events@.take(i as int);
        let ghost next = events@.take(i + 1);
        proof {
            assert(next.drop_last() =~= prefix);
            assert(next.last() == events@[i as int]);
            lemma_leaves_known_prefix(start.sessions.dom(), events@, i + 1);
        }
        match events[i] {
            ServerEvent::ClientConnected { client_id } => {
                let at = spawn_point(random_sample(), random_sample());
                client_connected(world, player_map, client_id, at, now);
                proof {
                    let ghost grown = spawns.push(at);
                    assert(grown.drop_last() =~= spawns);
                    spawns = grown;
                }
            },
            ServerEvent::ClientDisconnected { client_id } => {
                client_disconnected(world, player_map, client_id);
                proof {
                    let ghost grown = spawns.push(Vec3 { x: 1500, y: 2500, z: 1500 });
                    assert(grown.drop_last() =~= spawns);
                    spawns = grown;
                }
            },
        }
        i = i + 1;
    }
    proof {
        assert(events@.take(i as int) =~= events@);
        assert(reports_applied(
            start,
            events@,
            spawns,
            now,
            ServerView { world: world@, sessions: player_map@ },
        ));
    }
}

/// A run of reports in which every leave is known stays so when it is cut short.
pub proof fn lemma_leaves_known_prefix(ids: Set<u64>, events: Seq<ServerEvent>, n: int)
    requires
        leaves_are_known(ids, events),
        0 <= n <= events.len(),
    ensures
        leaves_are_known(ids, events.take(n)),
    decreases events.len(),
{
    if n < events.len() {
        assert(events.drop_last().take(n) =~= events.take(n));
        lemma_leaves_known_prefix(ids, events.drop_last(), n);
    } else {
        assert(events.take(n) =~= events);
    }
}

/// The reports that follow from the errors of sessions, such as a send that failed
/// or an event that could not be read: every connected client with an error is
/// reported as having left, once, in the order of the first error.
pub open spec fn session_error_reports(connected: Set<u64>, failed: Seq<u64>) -> Seq<ServerEvent>
    decreases failed.len(),
{
    if failed.len() == 0 {
        Seq::empty()
    } else {
        let before = session_error_reports(connected, failed.drop_last());
        if connected.contains(failed.last()) && !failed.drop_last().contains(failed.last()) {
            before.push(ServerEvent::ClientDisconnected { client_id: failed.last() })
        } else {
            before
        }
    }
}

/// The reports that follow from the errors of sessions can be applied: each names a
/// client that is still connected when its report is reached.
pub proof fn lemma_session_error_reports_are_known(connected: Set<u64>, failed: Seq<u64>)
    ensures
        leaves_are_known(connected, session_error_reports(connected, failed)),
        connected_after(connected, session_error_reports(connected, failed)) == connected.difference(
            failed.to_set(),
        ),
    decreases failed.len(),
{
    if failed.len() == 0 {
        assert(connected.difference(failed.to_set()) =~= connected);
    } else {
        let earlier = failed.drop_last();
        let before = session_error_reports(connected, earlier);
        lemma_session_error_reports_are_known(connected, earlier);
        assert forall|x: u64| failed.to_set().contains(x) <==> (earlier.to_set().contains(x) || x
            == failed.last()) by {
            if earlier.to_set().contains(x) {
                let i = choose|i: int| 0 <= i < earlier.len() && earlier[i] == x;
                assert(failed[i] == x);
            }
            if failed.to_set().contains(x) && x != failed.last() {
                let i = choose|i: int| 0 <= i < failed.len() && failed[i] == x;
                assert(earlier[i] == x);
            }
            if x == failed.last() {
                assert(failed[failed.len() - 1] == x);
            }
        }
        if connected.contains(failed.last()) && !earlier.contains(failed.last()) {
            let reports = before.push(ServerEvent::ClientDisconnected { client_id: failed.last() });
            assert(reports.drop_last() =~= before);
            assert(connected_after(connected, reports) =~= connected.difference(failed.to_set()));
        } else {
            assert(connected.difference(earlier.to_set()) =~= connected.difference(
                failed.to_set(),
            ));
        }
    }
}

/// Turns the session errors of one tick into reports for the next: an error costs
/// that client its session, and no other client anything. `failed` names the client
/// of each error.
pub fn report_session_errors(player_map: &PlayerMap, failed: &Vec<u64>) -> (reports: Vec<ServerEvent>)
    ensures
        reports@ == session_error_reports(player_map@.dom(), failed@),
        leaves_are_known(player_map@.dom(), reports@),
{
    let mut reports: Vec<ServerEvent> = Vec::new();
    let mut i: usize = 0;
    while i < failed.len()
        invariant
            i <= failed.len(),
            reports@ == session_error_reports(player_map@.dom(), failed@.take(i as int)),
        decreases failed.len() - i,
    {
        proof {
            assert(failed@.take(i + 1).drop_last() =~= failed@.take(i as int));
        }
        let client_id = failed[i];
        let mut seen = false;
        let mut j: usize = 0;
        while j < i
            invariant
                j <= i,
                i < failed.len(),
                client_id == failed@[i as int],
                seen == failed@.take(j as int).contains(client_id),
            decreases i - j,
        {
            proof {
                let longer = failed@.take(j + 1);
                let shorter = failed@.take(j as int);
                assert(longer.drop_last() =~= shorter);
                assert(longer.contains(client_id) <==> (shorter.contains(client_id) || failed@[j as int]
                    == client_id)) by {
                    if shorter.contains(client_id) {
                        let k = choose|k: int| 0 <= k < shorter.len() && shorter[k] == client_id;
                        assert(longer[k] == client_id);
                    }
                    if longer.contains(client_id) && failed@[j as int] != client_id {
                        let k = choose|k: int| 0 <= k < longer.len() && longer[k] == client_id;
                        assert(shorter[k] == client_id);
                    }
                    if failed@[j as int] == client_id {
                        assert(longer[j as int] == client_id);
                    }
                }
            }
            if failed[j] == client_id {
                seen = true;
            }
            j = j + 1;
        }
        if !seen && player_map.is_connected(client_id) {
            reports.push(ServerEvent::ClientDisconnected { client_id });
        }
        i = i + 1;
    }
    proof {
        assert(failed@.take(i as int) =~= failed@);
        lemma_session_error_reports_are_known(player_map@.dom(), failed@);
    }
    reports
}

} // verus!
