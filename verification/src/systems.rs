//! The server's systems for client events and for the world's upkeep: each takes the
//! events of one tick, or none, and says exactly what it does to the world.

use vstd::prelude::*;
use vstd::arithmetic::div_mod::lemma_fundamental_div_mod_converse;
use crate::events::{AdminCommand, Aim, FromClient, MoveDirection, SetName};
use crate::geometry::{Vec2, Vec3};
use crate::records::{
    Appearance, Record, RecordSetView, RecordView, ReplicatedAim, ReplicationBundle, Tint,
};
use crate::sessions::{PlayerMap, Session};
use crate::world::{
    lemma_descends_after_pruning, lemma_descends_transitive, Entity, EntityView, World, WorldView,
};

verus! {

/// The entity that an event of the given client is meant for: the one its session
/// names, as long as that entity is alive.
pub open spec fn resolve(world: WorldView, sessions: Map<u64, Session>, client_id: u64) -> Option<
    Entity,
> {
    if sessions.contains_key(client_id) && world.alive(sessions[client_id].entity) {
        Some(sessions[client_id].entity)
    } else {
        None
    }
}

/// Finds the live entity that stands for a client.
pub fn entity_of(world: &World, player_map: &PlayerMap, client_id: u64) -> (found: Option<Entity>)
    ensures
        found == resolve(world@, player_map@, client_id),
{
    match player_map.get(client_id) {
        Some(session) => if world.is_alive(session.entity) {
            Some(session.entity)
        } else {
            None
        },
        None => None,
    }
}

/// A push that the simulation is to give an entity.
#[derive(Clone, Copy, Debug, PartialEq, Eq, Structural)]
pub struct MoveOrder {
    pub entity: Entity,
    pub direction: Vec2,
}

/// What became of the movement events of one tick.
#[derive(Debug)]
pub struct MoveOutcome {
    /// The pushes to give, in the order in which the events came.
    pub orders: Vec<MoveOrder>,
    /// The senders of the events that were meant for no live entity, in the order in
    /// which the events came.
    pub poltergeists: Vec<u64>,
}

/// The pushes that a run of movement events asks for: one for each event whose
/// sender has a live entity.
pub open spec fn move_orders(
    world: WorldView,
    sessions: Map<u64, Session>,
    events: Seq<FromClient<MoveDirection>>,
) -> Seq<MoveOrder>
    decreases events.len(),
{
    if events.len() == 0 {
        Seq::empty()
    } else {
        let before = move_orders(world, sessions, events.drop_last());
        match resolve(world, sessions, events.last().client_id) {
            Some(entity) => before.push(MoveOrder { entity, direction: events.last().event.0 }),
            None => before,
        }
    }
}

/// The senders of the movement events that are meant for no live entity.
pub open spec fn move_poltergeists(
    world: WorldView,
    sessions: Map<u64, Session>,
    events: Seq<FromClient<MoveDirection>>,
) -> Seq<u64>
    decreases events.len(),
{
    if events.len() == 0 {
        Seq::empty()
    } else {
        let before = move_poltergeists(world, sessions, events.drop_last());
        match resolve(world, sessions, events.last().client_id) {
            Some(_) => before,
            None => before.push(events.last().client_id),
        }
    }
}

/// Sorts the movement events of one tick: an event of a client with a live entity
/// becomes a push for that entity, any other event is set aside. The world and the
/// sessions stay as they are.
pub fn move_clients(
    world: &World,
    player_map: &PlayerMap,
    events: &Vec<FromClient<MoveDirection>>,
) -> (outcome: MoveOutcome)
    ensures
        outcome.orders@ == move_orders(world@, player_map@, events@),
        outcome.poltergeists@ == move_poltergeists(world@, player_map@, events@),
{
    let mut orders: Vec<MoveOrder> = Vec::new();
    let mut poltergeists: Vec<u64> = Vec::new();
    let mut i: usize = 0;
    while i < events.len()
        invariant
            i <= events.len(),
            orders@ == move_orders(world@, player_map@, events@.take(i as int)),
            poltergeists@ == move_poltergeists(world@, player_map@, events@.take(i as int)),
        decreases events.len() - i,
    {
        proof {
            assert(events@.take(i + 1).drop_last() =~= events@.take(i as int));
        }
        match entity_of(world, player_map, events[i].client_id) {
            Some(entity) => {
                orders.push(MoveOrder { entity, direction: events[i].event.0 });
            },
            None => {
                poltergeists.push(events[i].client_id);
            },
        }
        i = i + 1;
    }
    proof {
        assert(events@.take(i as int) =~= events@);
    }
    MoveOutcome { orders, poltergeists }
}

/// Whether an aim event finds its target: the sender has a live entity, and that
/// entity has an aim to set.
pub open spec fn aim_lands(world: WorldView, sessions: Map<u64, Session>, client_id: u64) -> bool {
    match resolve(world, sessions, client_id) {
        Some(entity) => world.get(entity).records.aim is Some,
        None => false,
    }
}

/// The world after one aim event.
pub open spec fn after_aim(
    world: WorldView,
    sessions: Map<u64, Session>,
    event: FromClient<Aim>,
) -> WorldView {
    if aim_lands(world, sessions, event.client_id) {
        world.with_record(
            sessions[event.client_id].entity,
            RecordView::Aim(ReplicatedAim(event.event.0)),
        )
    } else {
        world
    }
}

/// The world after a run of aim events, applied in order.
pub open spec fn after_aims(
    world: WorldView,
    sessions: Map<u64, Session>,
    events: Seq<FromClient<Aim>>,
) -> WorldView
    decreases events.len(),
{
    if events.len() == 0 {
        world
    } else {
        after_aim(after_aims(world, sessions, events.drop_last()), sessions, events.last())
    }
}

/// The senders of the aim events that find no target.
pub open spec fn aims_set_aside(
    world: WorldView,
    sessions: Map<u64, Session>,
    events: Seq<FromClient<Aim>>,
) -> Seq<u64>
    decreases events.len(),
{
    if events.len() == 0 {
        Seq::empty()
    } else {
        let before = aims_set_aside(world, sessions, events.drop_last());
        if aim_lands(
            after_aims(world, sessions, events.drop_last()),
            sessions,
            events.last().client_id,
        ) {
            before
        } else {
            before.push(events.last().client_id)
        }
    }
}

/// Applies the aim events of one tick, in order: each sets the aim of its sender's
/// entity. An event of an unknown client, or for an entity without an aim, is set
/// aside; the senders of those are returned.
pub fn apply_aim(
    world: &mut World,
    player_map: &PlayerMap,
    events: &Vec<FromClient<Aim>>,
) -> (set_aside: Vec<u64>)
    requires
        old(world).wf(),
    ensures
        final(world).wf(),
        final(world)@ == after_aims(old(world)@, player_map@, events@),
        set_aside@ == aims_set_aside(old(world)@, player_map@, events@),
{
    let mut set_aside: Vec<u64> = Vec::new();
    let mut i: usize = 0;
    while i < events.len()
        invariant
            i <= events.len(),
            world.wf(),
            world@ == after_aims(old(world)@, player_map@, events@.take(i as int)),
            set_aside@ == aims_set_aside(old(world)@, player_map@, events@.take(i as int)),
        decreases events.len() - i,
    {
        proof {
            assert(events@.take(i + 1).drop_last() =~= events@.take(i as int));
        }
        let client_id = events[i].client_id;
        let target = match entity_of(world, player_map, client_id) {
            Some(entity) => match world.get(entity) {
                Some(d) => if d.records.aim.is_some() {
                    Some(entity)
                } else {
                    None
                },
                None => None,
            },
            None => None,
        };
        match target {
            Some(entity) => {
                world.insert_record(entity, Record::Aim(ReplicatedAim(events[i].event.0)));
            },
            None => {
                set_aside.push(client_id);
            },
        }
        i = i + 1;
    }
    proof {
        assert(events@.take(i as int) =~= events@);
    }
    set_aside
}

/// The name that the last of the events of a client asks for, if it sent any.
pub open spec fn last_name_for(events: Seq<FromClient<SetName>>, client_id: u64) -> Option<
    Seq<char>,
>
    decreases events.len(),
{
    if events.len() == 0 {
        None
    } else if events.last().client_id == client_id {
        Some(events.last().event.0@)
    } else {
        last_name_for(events.drop_last(), client_id)
    }
}

/// An entity after the naming events of one tick: a client's entity that has no name
/// yet takes the name that the client asked for last.
pub open spec fn named(d: EntityView, events: Seq<FromClient<SetName>>) -> EntityView {
    match (d.records.player, d.records.name) {
        (Some(p), None) => match last_name_for(events, p.0) {
            Some(n) => EntityView {
                records: RecordSetView { name: Some(n), ..d.records },
                ..d
            },
            None => d,
        },
        _ => d,
    }
}

/// The world after the naming events of one tick.
pub open spec fn after_names(world: WorldView, events: Seq<FromClient<SetName>>) -> WorldView {
    WorldView {
        slots: Seq::new(
            world.slots.len(),
            |i: int|
                match world.slots[i] {
                    Some(d) => Some(named(d, events)),
                    None => None,
                },
        ),
    }
}

/// Looks up the name that a client asked for last.
pub fn last_name(events: &Vec<FromClient<SetName>>, client_id: u64) -> (found: Option<String>)
    ensures
        found is Some <==> last_name_for(events@, client_id) is Some,
        found matches Some(n) ==> Some(n@) == last_name_for(events@, client_id),
{
    let mut i: usize = events.len();
    proof {
        assert(events@.take(i as int) =~= events@);
    }
    while i > 0
        invariant
            i <= events.len(),
            last_name_for(events@, client_id) == last_name_for(events@.take(i as int), client_id),
        decreases i,
    {
        proof {
            assert(events@.take(i as int).drop_last() =~= events@.take(i - 1));
            assert(events@.take(i as int).last() == events@[i - 1]);
        }
        if events[i - 1].client_id == client_id {
            return Some(events[i - 1].event.0.clone());
        }
        i = i - 1;
    }
    proof {
        assert(events@.take(0).len() == 0);
    }
    None
}

/// Applies the naming events of one tick. Only the entity of a client that has no
/// name yet is named, so a name, once given, stays.
pub fn receive_names(world: &mut World, events: &Vec<FromClient<SetName>>)
    requires
        old(world).wf(),
    ensures
        final(world).wf(),
        final(world)@ == after_names(old(world)@, events@),
{
    let n = world.len();
    let mut i: usize = 0;
    while i < n
        invariant
            i <= n,
            world.wf(),
            n == world@.slots.len(),
            n == old(world)@.slots.len(),
            forall|j: int|
                0 <= j < i ==> #[trigger] world@.slots[j] == after_names(old(world)@, events@).slots[j],
            forall|j: int| i <= j < n ==> #[trigger] world@.slots[j] == old(world)@.slots[j],
        decreases n - i,
    {
        let ghost before = world@;
        let wanted = match world.get(Entity(i)) {
            Some(d) => match (d.records.player, &d.records.name) {
                (Some(p), None) => last_name(events, p.0),
                _ => None,
            },
            None => None,
        };
        match wanted {
            Some(name) => {
                world.insert_record(Entity(i), Record::Name(name));
            },
            None => {},
        }
        proof {
            assert(before.slots[i as int] == old(world)@.slots[i as int]);
            assert forall|j: int| 0 <= j < n && j != i implies world@.slots[j]
                == before.slots[j] by {}
        }
        i = i + 1;
    }
    assert(world@.slots =~= after_names(old(world)@, events@).slots);
}

/// A box of a wall, as it is made.
pub open spec fn box_entity(at: Vec3) -> EntityView {
    EntityView {
        parent: None,
        transform: at,
        moved: true,
        records: ReplicationBundle::spec_new(Tint::spec_green(), Appearance::Box).spec_records(),
    }
}

/// The boxes of a square wall, column by column from its lowest corner `at`: the box
/// in column `x` and row `y` stands `x` units along and `y` units up.
pub open spec fn wall(side_size: u8, at: Vec3) -> Seq<EntityView> {
    Seq::new(
        (side_size * side_size) as nat,
        |k: int| box_entity(at.spec_offset_units(k / side_size as int, k % side_size as int, 0)),
    )
}

/// The boxes that a run of commands asks for, in order.
pub open spec fn walls(commands: Seq<FromClient<AdminCommand>>) -> Seq<EntityView>
    decreases commands.len(),
{
    if commands.len() == 0 {
        Seq::empty()
    } else {
        walls(commands.drop_last()) + (match commands.last().event {
            AdminCommand::SpawnBoxWall { side_size, at } => wall(side_size, at),
        })
    }
}

/// Carries out the commands of one tick, in order, and returns how many entities
/// that made. The new entities take the next free handles.
pub fn handle_admin_commands(
    world: &mut World,
    commands: &Vec<FromClient<AdminCommand>>,
) -> (made: usize)
    requires
        old(world).wf(),
    ensures
        final(world).wf(),
        final(world)@ == old(world)@.spawn_all(walls(commands@)),
        made == walls(commands@).len(),
{
    let start = world.len();
    let mut c: usize = 0;
    proof {
        assert(commands@.take(0).len() == 0);
        assert(world@.slots =~= old(world)@.spawn_all(Seq::empty()).slots);
    }
    while c < commands.len()
        invariant
            c <= commands.len(),
            world.wf(),
            world@ == old(world)@.spawn_all(walls(commands@.take(c as int))),
        decreases commands.len() - c,
    {
        let ghost done = walls(commands@.take(c as int));
        proof {
            assert(commands@.take(c + 1).drop_last() =~= commands@.take(c as int));
        }
        match commands[c].event {
            AdminCommand::SpawnBoxWall { side_size, at } => {
                let ghost whole = wall(side_size, at);
                let mut xi: u8 = 0;
                while xi < side_size
                    invariant
                        xi <= side_size,
                        world.wf(),
                        whole == wall(side_size, at),
                        world@ == old(world)@.spawn_all(
                            done + whole.take(xi as int * side_size as int),
                        ),
                    decreases side_size - xi,
                {
                    let mut yi: u8 = 0;
                    while yi < side_size
                        invariant
                            xi < side_size,
                            yi <= side_size,
                            world.wf(),
                            whole == wall(side_size, at),
                            world@ == old(world)@.spawn_all(
                                done + whole.take(xi as int * side_size as int + yi as int),
                            ),
                        decreases side_size - yi,
                    {
                        let ghost k = xi as int * side_size as int + yi as int;
                        proof {
                            lemma_fundamental_div_mod_converse(
                                k,
                                side_size as int,
                                xi as int,
                                yi as int,
                            );
                            assert(k < side_size as int * side_size as int) by (nonlinear_arith)
                                requires
                                    k == xi as int * side_size as int + yi as int,
                                    0 <= xi < side_size,
                                    0 <= yi < side_size,
                            ;
                            assert(whole.take(k + 1) =~= whole.take(k).push(whole[k]));
                            assert((done + whole.take(k)).push(whole[k]) =~= done + whole.take(
                                k + 1,
                            ));
                        }
                        let bundle = ReplicationBundle::new(Tint::green(), Appearance::Box);
                        world.spawn(at.offset_units(xi, yi, 0), bundle.records());
                        proof {
                            assert(world@.slots =~= old(world)@.spawn_all(
                                done + whole.take(k + 1),
                            ).slots);
                        }
                        yi = yi + 1;
                    }
                    proof {
                        assert((xi as int + 1) * side_size as int == xi as int * side_size as int
                            + side_size as int) by (nonlinear_arith);
                    }
                    xi = xi + 1;
                }
                proof {
                    assert(whole.take(whole.len() as int) =~= whole);
                }
            },
        }
        c = c + 1;
    }
    proof {
        assert(commands@.take(c as int) =~= commands@);
    }
    world.len() - start
}

/// The height below which an entity has fallen out of the world, in thousandths.
pub const FLOOR: i32 = -1_000_000;

/// Whether an entity has fallen out of the world.
pub open spec fn fallen(d: EntityView) -> bool {
    d.transform.y < -1_000_000
}

/// Whether the entity in slot `i` goes when the fallen entities are cleared away:
/// it has fallen itself, or something that owns it has.
pub open spec fn doomed(world: WorldView, i: int) -> bool {
    doomed_by(world, i, world.slots.len() as int)
}

/// Whether the entity in slot `i` descends from a fallen entity in a slot before
/// `limit`.
pub open spec fn doomed_by(world: WorldView, i: int, limit: int) -> bool {
    exists|r: int|
        0 <= r < limit && r < world.slots.len() && world.slots[r] is Some && fallen(
            world.slots[r]->0,
        ) && #[trigger] world.descends(i, r)
}

/// The world without the entities that have fallen out of it, and without
/// everything they own.
pub open spec fn without_fallen(world: WorldView) -> WorldView {
    WorldView {
        slots: Seq::new(
            world.slots.len(),
            |i: int| if doomed(world, i) { None } else { world.slots[i] },
        ),
    }
}

/// Clears away every entity that has fallen out of the world, with everything it
/// owns.
pub fn kill_y(world: &mut World)
    requires
        old(world).wf(),
    ensures
        final(world).wf(),
        final(world)@ == without_fallen(old(world)@),
{
    let n = world.len();
    let mut r: usize = 0;
    while r < n
        invariant
            r <= n,
            world.wf(),
            old(world).wf(),
            n == world@.slots.len(),
            n == old(world)@.slots.len(),
            forall|j: int|
                0 <= j < n ==> #[trigger] world@.slots[j] == (if doomed_by(old(world)@, j, r as int) {
                    None
                } else {
                    old(world)@.slots[j]
                }),
        decreases n - r,
    {
        let ghost start = old(world)@;
        let ghost cur = world@;
        let has_fallen = match world.get(Entity(r)) {
            Some(d) => d.transform.y < FLOOR,
            None => false,
        };
        proof {
            assert(cur.pruned_from(start)) by {
                assert forall|j: int| 0 <= j < n implies #[trigger] cur.slots[j] is None
                    || cur.slots[j] == start.slots[j] by {}
            }
            assert forall|j: int| 0 <= j < n implies (doomed_by(start, j, r + 1) <==> (doomed_by(
                start,
                j,
                r as int,
            ) || (start.slots[r as int] is Some && fallen(start.slots[r as int]->0)
                && start.descends(j, r as int)))) by {
                if doomed_by(start, j, r + 1) && !doomed_by(start, j, r as int) {
                    let q = choose|q: int|
                        0 <= q < r + 1 && q < start.slots.len() && start.slots[q] is Some && fallen(
                            start.slots[q]->0,
                        ) && #[trigger] start.descends(j, q);
                    assert(q == r);
                }
            }
            if start.slots[r as int] is Some && fallen(start.slots[r as int]->0) && !has_fallen {
                // The fallen entity went with an owner that fell before it, and so did
                // everything it owns.
                assert(cur.slots[r as int] is None);
                assert(doomed_by(start, r as int, r as int));
                let q = choose|q: int|
                    0 <= q < r && q < start.slots.len() && start.slots[q] is Some && fallen(
                        start.slots[q]->0,
                    ) && #[trigger] start.descends(r as int, q);
                assert forall|j: int| start.descends(j, r as int) implies doomed_by(
                    start,
                    j,
                    r as int,
                ) by {
                    lemma_descends_transitive(start, j, r as int, q);
                }
            }
        }
        if has_fallen {
            world.despawn_recursive(Entity(r));
            proof {
                assert(cur.slots[r as int] == start.slots[r as int]);
                assert forall|j: int| 0 <= j < n implies #[trigger] world@.slots[j] == (if doomed_by(
                    start,
                    j,
                    r + 1,
                ) {
                    None
                } else {
                    start.slots[j]
                }) by {
                    lemma_descends_after_pruning(cur, start, j, r as int);
                }
            }
        }
        r = r + 1;
    }
    proof {
        assert(world@.slots =~= without_fallen(old(world)@).slots);
    }
}

} // verus!
