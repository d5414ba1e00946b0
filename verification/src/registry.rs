//! The channel registry. A channel's number is its place in the order of
//! registration, so the client and the server must register the same kinds in the
//! same order; [`ChannelRegistry::matches`] lets a handshake check that they did.

use vstd::prelude::*;
use crate::events::{EventKind, EventType};
use crate::records::RecordKind;

verus! {

/// What a channel carries.
#[derive(Clone, Copy, Debug, PartialEq, Eq, Structural)]
pub enum Channel {
    /// The records of one kind, from the server to the clients.
    Record(RecordKind),
    /// The events of one kind, from a client to the server, and how they travel.
    Event(EventKind, EventType),
}

/// Why a registration was refused.
#[derive(Clone, Copy, Debug, PartialEq, Eq, Structural)]
pub enum RegistryError {
    /// The kind has a channel already. How its events travel is fixed once.
    AlreadyRegistered,
}

/// The channels in the order of their registration.
pub struct ChannelRegistry {
    channels: Vec<Channel>,
}

impl View for ChannelRegistry {
    type V = Seq<Channel>;

    closed spec fn view(&self) -> Seq<Channel> {
        self.channels@
    }
}

/// Whether a channel carries the records of the given kind.
pub open spec fn carries_record(channel: Channel, kind: RecordKind) -> bool {
    channel == Channel::Record(kind)
}

/// Whether a channel carries the events of the given kind.
pub open spec fn carries_event(channel: Channel, kind: EventKind) -> bool {
    channel matches Channel::Event(k, _) && k == kind
}

/// Whether some channel carries the records of the given kind.
pub open spec fn has_record(channels: Seq<Channel>, kind: RecordKind) -> bool {
    exists|i: int| 0 <= i < channels.len() && carries_record(#[trigger] channels[i], kind)
}

/// Whether some channel carries the events of the given kind.
pub open spec fn has_event(channels: Seq<Channel>, kind: EventKind) -> bool {
    exists|i: int| 0 <= i < channels.len() && carries_event(#[trigger] channels[i], kind)
}

/// No kind has two channels.
pub open spec fn channels_distinct(channels: Seq<Channel>) -> bool {
    forall|i: int, j: int|
        0 <= i < j < channels.len() ==> match (#[trigger] channels[i], #[trigger] channels[j]) {
            (Channel::Record(a), Channel::Record(b)) => a != b,
            (Channel::Event(a, _), Channel::Event(b, _)) => a != b,
            _ => true,
        }
}

/// The byte that stands for a channel in a handshake: the kinds of record count from
/// zero; the kinds of event count from sixteen in steps of two, and an event kind
/// that travels unordered takes the byte after its own.
pub open spec fn channel_byte(channel: Channel) -> u8 {
    match channel {
        Channel::Record(RecordKind::Player) => 0,
        Channel::Record(RecordKind::Tint) => 1,
        Channel::Record(RecordKind::ReplicatedPos) => 2,
        Channel::Record(RecordKind::ReplicatedAim) => 3,
        Channel::Record(RecordKind::Appearance) => 4,
        Channel::Record(RecordKind::Name) => 5,
        Channel::Event(EventKind::AdminCommand, EventType::Ordered) => 16,
        Channel::Event(EventKind::AdminCommand, EventType::Unordered) => 17,
        Channel::Event(EventKind::MoveDirection, EventType::Ordered) => 18,
        Channel::Event(EventKind::MoveDirection, EventType::Unordered) => 19,
        Channel::Event(EventKind::SetName, EventType::Ordered) => 20,
        Channel::Event(EventKind::SetName, EventType::Unordered) => 21,
        Channel::Event(EventKind::Aim, EventType::Ordered) => 22,
        Channel::Event(EventKind::Aim, EventType::Unordered) => 23,
    }
}

/// The bytes that stand for a run of channels in a handshake: one for each channel,
/// in the order of registration.
pub open spec fn handshake_bytes(channels: Seq<Channel>) -> Seq<u8> {
    Seq::new(channels.len(), |i: int| channel_byte(channels[i]))
}

/// Two runs of channels with the same handshake bytes are the same channels in the
/// same order: a handshake that compares the bytes finds every mismatch.
pub proof fn lemma_handshake_is_faithful(a: Seq<Channel>, b: Seq<Channel>)
    requires
        handshake_bytes(a) == handshake_bytes(b),
    ensures
        a == b,
{
    assert(a.len() == handshake_bytes(a).len());
    assert(b.len() == handshake_bytes(b).len());
    assert forall|i: int| 0 <= i < a.len() implies a[i] == b[i] by {
        assert(handshake_bytes(a)[i] == channel_byte(a[i]));
        assert(handshake_bytes(b)[i] == channel_byte(b[i]));
    }
    assert(a =~= b);
}

/// The channels that the game registers, in its order: first the records, then the
/// events.
pub open spec fn standard_channels() -> Seq<Channel> {
    seq![
        Channel::Record(RecordKind::Player),
        Channel::Record(RecordKind::Tint),
        Channel::Record(RecordKind::ReplicatedPos),
        Channel::Record(RecordKind::ReplicatedAim),
        Channel::Record(RecordKind::Appearance),
        Channel::Record(RecordKind::Name),
        Channel::Event(EventKind::AdminCommand, EventType::Ordered),
        Channel::Event(EventKind::MoveDirection, EventType::Ordered),
        Channel::Event(EventKind::SetName, EventType::Ordered),
        Channel::Event(EventKind::Aim, EventType::Unordered),
    ]
}

/// The byte that stands for a channel in a handshake.
pub fn byte_of(channel: Channel) -> (b: u8)
    ensures
        b == channel_byte(channel),
{
    match channel {
        Channel::Record(RecordKind::Player) => 0,
        Channel::Record(RecordKind::Tint) => 1,
        Channel::Record(RecordKind::ReplicatedPos) => 2,
        Channel::Record(RecordKind::ReplicatedAim) => 3,
        Channel::Record(RecordKind::Appearance) => 4,
        Channel::Record(RecordKind::Name) => 5,
        Channel::Event(EventKind::AdminCommand, EventType::Ordered) => 16,
        Channel::Event(EventKind::AdminCommand, EventType::Unordered) => 17,
        Channel::Event(EventKind::MoveDirection, EventType::Ordered) => 18,
        Channel::Event(EventKind::MoveDirection, EventType::Unordered) => 19,
        Channel::Event(EventKind::SetName, EventType::Ordered) => 20,
        Channel::Event(EventKind::SetName, EventType::Unordered) => 21,
        Channel::Event(EventKind::Aim, EventType::Ordered) => 22,
        Channel::Event(EventKind::Aim, EventType::Unordered) => 23,
    }
}

impl ChannelRegistry {
    /// The invariant of a registry: no kind has two channels.
    pub open spec fn wf(&self) -> bool {
        channels_distinct(self@)
    }

    /// A registry without channels.
    pub fn new() -> (r: ChannelRegistry)
        ensures
            r@ == Seq::<Channel>::empty(),
            r.wf(),
    {
        ChannelRegistry { channels: Vec::new() }
    }

    /// How many channels are registered.
    pub fn len(&self) -> (n: usize)
        ensures
            n == self@.len(),
    {
        self.channels.len()
    }

    /// The channel of the records of a kind: the number `i` with
    /// `self@[i] == Channel::Record(kind)`, if the kind is registered.
    pub fn record_channel(&self, kind: RecordKind) -> (id: Option<usize>)
        ensures
            id is Some <==> has_record(self@, kind),
            id matches Some(i) ==> i < self@.len() && carries_record(self@[i as int], kind)
                && forall|j: int| 0 <= j < i ==> !carries_record(self@[j], kind),
    {
        let mut i: usize = 0;
        while i < self.channels.len()
            invariant
                i <= self.channels.len(),
                forall|j: int| 0 <= j < i ==> !carries_record(self@[j], kind),
            decreases self.channels.len() - i,
        {
            let found = match self.channels[i] {
                Channel::Record(k) => k == kind,
                Channel::Event(_, _) => false,
            };
            if found {
                return Some(i);
            }
            i = i + 1;
        }
        None
    }

    /// The channel of the events of a kind, and how they travel, if the kind is
    /// registered.
    pub fn event_channel(&self, kind: EventKind) -> (found: Option<(usize, EventType)>)
        ensures
            found is Some <==> has_event(self@, kind),
            found matches Some((i, delivery)) ==> i < self@.len() && self@[i as int]
                == Channel::Event(kind, delivery) && forall|j: int|
                0 <= j < i ==> !carries_event(self@[j], kind),
    {
        let mut i: usize = 0;
        while i < self.channels.len()
            invariant
                i <= self.channels.len(),
                forall|j: int| 0 <= j < i ==> !carries_event(self@[j], kind),
            decreases self.channels.len() - i,
        {
            match self.channels[i] {
                Channel::Event(k, delivery) => {
                    if k == kind {
                        return Some((i, delivery));
                    }
                },
                Channel::Record(_) => {},
            }
            i = i + 1;
        }
        None
    }

    /// Registers the records of a kind for replication, on the next free channel,
    /// whose number is returned. A kind that has a channel is refused, and the
    /// registry stays as it is.
    pub fn register_record(&mut self, kind: RecordKind) -> (r: Result<usize, RegistryError>)
        requires
            old(self).wf(),
        ensures
            final(self).wf(),
            r is Err <==> has_record(old(self)@, kind),
            r is Err ==> final(self)@ == old(self)@,
            r matches Ok(id) ==> id == old(self)@.len() && final(self)@ == old(self)@.push(
                Channel::Record(kind),
            ),
    {
        if self.record_channel(kind).is_some() {
            return Err(RegistryError::AlreadyRegistered);
        }
        let id = self.channels.len();
        self.channels.push(Channel::Record(kind));
        proof {
            assert forall|i: int, j: int| 0 <= i < j < self@.len() implies match (
                #[trigger] self@[i],
                #[trigger] self@[j],
            ) {
                (Channel::Record(a), Channel::Record(b)) => a != b,
                (Channel::Event(a, _), Channel::Event(b, _)) => a != b,
                _ => true,
            } by {
                if j == id {
                    assert(!carries_record(old(self)@[i], kind));
                } else {
                    assert(self@[i] == old(self)@[i] && self@[j] == old(self)@[j]);
                }
            }
        }
        Ok(id)
    }

    /// Registers the events of a kind, on the next free channel, whose number is
    /// returned, and fixes how they travel. A kind that has a channel is refused, and
    /// the registry stays as it is.
    pub fn register_event(&mut self, kind: EventKind, delivery: EventType) -> (r: Result<
        usize,
        RegistryError,
    >)
        requires
            old(self).wf(),
        ensures
            final(self).wf(),
            r is Err <==> has_event(old(self)@, kind),
            r is Err ==> final(self)@ == old(self)@,
            r matches Ok(id) ==> id == old(self)@.len() && final(self)@ == old(self)@.push(
                Channel::Event(kind, delivery),
            ),
    {
        if self.event_channel(kind).is_some() {
            return Err(RegistryError::AlreadyRegistered);
        }
        let id = self.channels.len();
        self.channels.push(Channel::Event(kind, delivery));
        proof {
            assert forall|i: int, j: int| 0 <= i < j < self@.len() implies match (
                #[trigger] self@[i],
                #[trigger] self@[j],
            ) {
                (Channel::Record(a), Channel::Record(b)) => a != b,
                (Channel::Event(a, _), Channel::Event(b, _)) => a != b,
                _ => true,
            } by {
                if j == id {
                    assert(!carries_event(old(self)@[i], kind));
                } else {
                    assert(self@[i] == old(self)@[i] && self@[j] == old(self)@[j]);
                }
            }
        }
        Ok(id)
    }

    /// The registry as it is sent in a handshake.
    pub fn to_bytes(&self) -> (bytes: Vec<u8>)
        ensures
            bytes@ == handshake_bytes(self@),
    {
        let mut bytes: Vec<u8> = Vec::new();
        let mut i: usize = 0;
        while i < self.channels.len()
            invariant
                i <= self.channels.len(),
                bytes@.len() == i,
                forall|j: int| 0 <= j < i ==> #[trigger] bytes@[j] == channel_byte(self@[j]),
            decreases self.channels.len() - i,
        {
            bytes.push(byte_of(self.channels[i]));
            i = i + 1;
        }
        assert(bytes@ =~= handshake_bytes(self@));
        bytes
    }

    /// Whether the registry that a peer has sent in its handshake is this registry:
    /// the same channels in the same order.
    pub fn agrees_with(&self, peer: &Vec<u8>) -> (b: bool)
        ensures
            b == (peer@ == handshake_bytes(self@)),
    {
        if peer.len() != self.channels.len() {
            return false;
        }
        let mut i: usize = 0;
        while i < self.channels.len()
            invariant
                i <= self.channels.len(),
                peer@.len() == self@.len(),
                forall|j: int| 0 <= j < i ==> #[trigger] peer@[j] == channel_byte(self@[j]),
            decreases self.channels.len() - i,
        {
            if peer[i] != byte_of(self.channels[i]) {
                assert(handshake_bytes(self@)[i as int] == channel_byte(self@[i as int]));
                return false;
            }
            i = i + 1;
        }
        assert(peer@ =~= handshake_bytes(self@));
        true
    }

    /// Whether two registries hold the same channels in the same order, which is what
    /// a client and a server need to understand each other.
    pub fn matches(&self, other: &ChannelRegistry) -> (b: bool)
        ensures
            b == (self@ == other@),
    {
        if self.channels.len() != other.channels.len() {
            return false;
        }
        let mut i: usize = 0;
        while i < self.channels.len()
            invariant
                i <= self.channels.len(),
                self.channels.len() == other.channels.len(),
                forall|j: int| 0 <= j < i ==> self@[j] == other@[j],
            decreases self.channels.len() - i,
        {
            let same = match (self.channels[i], other.channels[i]) {
                (Channel::Record(a), Channel::Record(b)) => a == b,
                (Channel::Event(a, x), Channel::Event(b, y)) => a == b && x == y,
                _ => false,
            };
            if !same {
                return false;
            }
            i = i + 1;
        }
        assert(self@ =~= other@);
        true
    }
}

/// Registers what the game replicates and what its clients send.
#[derive(Clone, Copy, Debug)]
pub struct PetriReplicationSetupPlugin;

impl PetriReplicationSetupPlugin {
    /// The registry of the game. Client and server both call this, so that both
    /// number the channels alike.
    pub fn build() -> (registry: ChannelRegistry)
        ensures
            registry@ == standard_channels(),
            registry.wf(),
    {
        let mut registry = ChannelRegistry::new();
        let _ = registry.register_record(RecordKind::Player);
        let _ = registry.register_record(RecordKind::Tint);
        let _ = registry.register_record(RecordKind::ReplicatedPos);
        let _ = registry.register_record(RecordKind::ReplicatedAim);
        let _ = registry.register_record(RecordKind::Appearance);
        let _ = registry.register_record(RecordKind::Name);
        let _ = registry.register_event(EventKind::AdminCommand, EventType::Ordered);
        let _ = registry.register_event(EventKind::MoveDirection, EventType::Ordered);
        let _ = registry.register_event(EventKind::SetName, EventType::Ordered);
        let _ = registry.register_event(EventKind::Aim, EventType::Unordered);
        assert(registry@ =~= standard_channels());
        registry
    }
}

} // verus!
