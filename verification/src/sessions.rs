//! The session table: which clients are connected, and which entity stands for each.

use vstd::prelude::*;
use crate::world::Entity;

verus! {

/// The server's record of one connected client.
#[derive(Clone, Copy, Debug, PartialEq, Eq, Structural)]
pub struct Session {
    /// The entity that stands for the client in the world.
    pub entity: Entity,
    /// The tick in which the client connected.
    pub connected_at: u64,
}

/// The table from client identifiers to sessions. It is the one place that says
/// which entity belongs to which client.
///
/// The table is a `bevy_utils::HashMap`, a `hashbrown` map with a fixed hasher. The
/// verifier does not look inside it: what it holds is [`player_map_entries`], and
/// what its methods do rests on the wrappers below, which state what `hashbrown`
/// documents of them.
#[verifier::external_body]
pub struct PlayerMap {
    inner: bevy_utils::HashMap<u64, Session>,
}

/// What a [`PlayerMap`] holds: the session of each connected client.
pub uninterp spec fn player_map_entries(m: PlayerMap) -> Map<u64, Session>;

impl View for PlayerMap {
    type V = Map<u64, Session>;

    open spec fn view(&self) -> Map<u64, Session> {
        player_map_entries(*self)
    }
}

/// `HashMap::default` of `hashbrown`, through `bevy_utils`: the map it makes holds
/// nothing.
#[verifier::external_body]
fn map_new() -> (made: PlayerMap)
    ensures
        player_map_entries(made).dom() == Set::<u64>::empty(),
{
    PlayerMap { inner: bevy_utils::HashMap::default() }
}

/// `HashMap::insert` of `hashbrown`: afterwards the key maps to the new value and
/// every other key is as before; the result is the value that the key mapped to
/// before, if any.
#[verifier::external_body]
fn map_insert(m: &mut PlayerMap, client_id: u64, session: Session) -> (previous: Option<Session>)
    ensures
        player_map_entries(*final(m)) == player_map_entries(*old(m)).insert(client_id, session),
        previous == (if player_map_entries(*old(m)).contains_key(client_id) {
            Some(player_map_entries(*old(m))[client_id])
        } else {
            None
        }),
{
    m.inner.insert(client_id, session)
}

/// `HashMap::remove` of `hashbrown`: afterwards the key maps to nothing and every
/// other key is as before; the result is the value that the key mapped to before,
/// if any.
#[verifier::external_body]
fn map_remove(m: &mut PlayerMap, client_id: u64) -> (previous: Option<Session>)
    ensures
        player_map_entries(*final(m)) == player_map_entries(*old(m)).remove(client_id),
        previous == (if player_map_entries(*old(m)).contains_key(client_id) {
            Some(player_map_entries(*old(m))[client_id])
        } else {
            None
        }),
{
    m.inner.remove(&client_id)
}

/// `HashMap::get` of `hashbrown`: the value that the key maps to, if any.
#[verifier::external_body]
fn map_get(m: &PlayerMap, client_id: u64) -> (found: Option<Session>)
    ensures
        found == (if player_map_entries(*m).contains_key(client_id) {
            Some(player_map_entries(*m)[client_id])
        } else {
            None
        }),
{
    m.inner.get(&client_id).copied()
}

/// `HashMap::len` of `hashbrown`: the number of keys.
#[verifier::external_body]
fn map_len(m: &PlayerMap) -> (n: usize)
    ensures
        n == player_map_entries(*m).len(),
{
    m.inner.len()
}

impl PlayerMap {
    /// A table is in order when it holds finitely many sessions.
    pub open spec fn wf(&self) -> bool {
        self@.dom().finite()
    }

    /// A table without sessions.
    pub fn new() -> (m: PlayerMap)
        ensures
            m@ == Map::<u64, Session>::empty(),
            m.wf(),
    {
        let m = map_new();
        assert(m@ =~= Map::<u64, Session>::empty());
        m
    }

    /// How many clients are connected.
    pub fn len(&self) -> (n: usize)
        ensures
            n == self@.len(),
    {
        map_len(self)
    }

    /// The session of a client, if it is connected.
    pub fn get(&self, client_id: u64) -> (found: Option<Session>)
        ensures
            found is Some <==> self@.contains_key(client_id),
            found matches Some(s) ==> s == self@[client_id],
    {
        map_get(self, client_id)
    }

    /// Whether a client is connected.
    pub fn is_connected(&self, client_id: u64) -> (b: bool)
        ensures
            b == self@.contains_key(client_id),
    {
        map_get(self, client_id).is_some()
    }

    /// Enters a session for a client, in place of the one it had, which is returned.
    pub fn insert(&mut self, client_id: u64, session: Session) -> (previous: Option<Session>)
        requires
            old(self).wf(),
        ensures
            final(self).wf(),
            final(self)@ == old(self)@.insert(client_id, session),
            previous is Some <==> old(self)@.contains_key(client_id),
            previous matches Some(s) ==> s == old(self)@[client_id],
            final(self)@.len() == old(self)@.len() + (if previous is Some {
                0int
            } else {
                1int
            }),
    {
        let previous = map_insert(self, client_id, session);
        assert(self@.dom() =~= old(self)@.dom().insert(client_id));
        previous
    }

    /// Strikes the session of a client, and returns it if there was one.
    pub fn remove(&mut self, client_id: u64) -> (previous: Option<Session>)
        requires
            old(self).wf(),
        ensures
            final(self).wf(),
            final(self)@ == old(self)@.remove(client_id),
            previous is Some <==> old(self)@.contains_key(client_id),
            previous matches Some(s) ==> s == old(self)@[client_id],
            final(self)@.len() == old(self)@.len() - (if previous is Some {
                1int
            } else {
                0int
            }),
    {
        let previous = map_remove(self, client_id);
        assert(self@.dom() =~= old(self)@.dom().remove(client_id));
        previous
    }
}

} // verus!
