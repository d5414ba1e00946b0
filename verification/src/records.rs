//! The replicated records: the typed values that the server pushes to every client.

use vstd::prelude::*;
use crate::geometry::Vec3;

verus! {

/// One colour channel as an exact fraction between zero and one.
#[derive(Clone, Copy, Debug, PartialEq, Eq, Structural)]
pub struct Fraction {
    pub num: u8,
    pub den: u8,
}

impl Fraction {
    /// A fraction is meaningful when it has a denominator and does not exceed one.
    pub open spec fn is_valid(self) -> bool {
        0 < self.den && self.num <= self.den
    }
}

/// Marks the entity that stands for a connected client, by the client's identifier.
#[derive(Clone, Copy, Debug, PartialEq, Eq, Structural)]
pub struct Player(pub u64);

/// Where an entity is, as last published by the server.
#[derive(Clone, Copy, Debug, PartialEq, Eq, Structural)]
pub struct ReplicatedPos(pub Vec3);

/// Where an entity looks, as last published by the server.
#[derive(Clone, Copy, Debug, PartialEq, Eq, Structural)]
pub struct ReplicatedAim(pub Vec3);

/// The colour of an entity.
#[derive(Clone, Copy, Debug, PartialEq, Eq, Structural)]
pub struct Tint {
    pub r: Fraction,
    pub g: Fraction,
    pub b: Fraction,
}

/// The shape an entity is drawn with.
#[derive(Clone, Copy, Debug, PartialEq, Eq, Structural)]
pub enum Appearance {
    Capsule,
    Box,
}

impl Tint {
    /// Whether two colours agree in every channel.
    pub fn same(&self, other: &Tint) -> (b: bool)
        ensures
            b == (*self == *other),
    {
        self.r.num == other.r.num && self.r.den == other.r.den && self.g.num == other.g.num
            && self.g.den == other.g.den && self.b.num == other.b.num && self.b.den
            == other.b.den
    }

    pub open spec fn is_valid(self) -> bool {
        self.r.is_valid() && self.g.is_valid() && self.b.is_valid()
    }

    /// The colour that belongs to a client: each channel is the identifier's residue
    /// modulo a small number of its own, over that number.
    pub open spec fn spec_for_client(client_id: u64) -> Tint {
        Tint {
            r: Fraction { num: (client_id % 23) as u8, den: 23 },
            g: Fraction { num: (client_id % 27) as u8, den: 27 },
            b: Fraction { num: (client_id % 39) as u8, den: 39 },
        }
    }

    pub open spec fn spec_green() -> Tint {
        Tint {
            r: Fraction { num: 0, den: 1 },
            g: Fraction { num: 1, den: 1 },
            b: Fraction { num: 0, den: 1 },
        }
    }

    pub open spec fn spec_pink() -> Tint {
        Tint {
            r: Fraction { num: 100, den: 100 },
            g: Fraction { num: 8, den: 100 },
            b: Fraction { num: 58, den: 100 },
        }
    }

    /// Derives a client's colour from its identifier. The same identifier always
    /// gives the same colour.
    #[verifier::when_used_as_spec(spec_for_client)]
    pub fn for_client(client_id: u64) -> (t: Tint)
        ensures
            t == Tint::spec_for_client(client_id),
            t.is_valid(),
            t.r.num < 23 && t.g.num < 27 && t.b.num < 39,
    {
        Tint {
            r: Fraction { num: (client_id % 23) as u8, den: 23 },
            g: Fraction { num: (client_id % 27) as u8, den: 27 },
            b: Fraction { num: (client_id % 39) as u8, den: 39 },
        }
    }

    /// The colour of boxes placed on command.
    #[verifier::when_used_as_spec(spec_green)]
    pub fn green() -> (t: Tint)
        ensures
            t == Tint::spec_green(),
            t.is_valid(),
    {
        Tint {
            r: Fraction { num: 0, den: 1 },
            g: Fraction { num: 1, den: 1 },
            b: Fraction { num: 0, den: 1 },
        }
    }

    /// The colour of the monster.
    #[verifier::when_used_as_spec(spec_pink)]
    pub fn pink() -> (t: Tint)
        ensures
            t == Tint::spec_pink(),
            t.is_valid(),
    {
        Tint {
            r: Fraction { num: 100, den: 100 },
            g: Fraction { num: 8, den: 100 },
            b: Fraction { num: 58, den: 100 },
        }
    }
}

/// The kinds of record, in the order in which they are registered for replication.
#[derive(Clone, Copy, Debug, PartialEq, Eq, Structural)]
pub enum RecordKind {
    Player,
    Tint,
    ReplicatedPos,
    ReplicatedAim,
    Appearance,
    Name,
}

/// One record value as it travels to a client.
#[derive(Debug)]
pub enum Record {
    Player(Player),
    Tint(Tint),
    Pos(ReplicatedPos),
    Aim(ReplicatedAim),
    Appearance(Appearance),
    Name(String),
}

/// The mathematical value of a [`Record`].
pub enum RecordView {
    Player(Player),
    Tint(Tint),
    Pos(ReplicatedPos),
    Aim(ReplicatedAim),
    Appearance(Appearance),
    Name(Seq<char>),
}

impl RecordView {
    pub open spec fn kind(self) -> RecordKind {
        match self {
            RecordView::Player(_) => RecordKind::Player,
            RecordView::Tint(_) => RecordKind::Tint,
            RecordView::Pos(_) => RecordKind::ReplicatedPos,
            RecordView::Aim(_) => RecordKind::ReplicatedAim,
            RecordView::Appearance(_) => RecordKind::Appearance,
            RecordView::Name(_) => RecordKind::Name,
        }
    }
}

impl View for Record {
    type V = RecordView;

    open spec fn view(&self) -> RecordView {
        match *self {
            Record::Player(p) => RecordView::Player(p),
            Record::Tint(t) => RecordView::Tint(t),
            Record::Pos(p) => RecordView::Pos(p),
            Record::Aim(a) => RecordView::Aim(a),
            Record::Appearance(a) => RecordView::Appearance(a),
            Record::Name(n) => RecordView::Name(n@),
        }
    }
}

impl Record {
    /// The kind of this record.
    pub fn kind(&self) -> (k: RecordKind)
        ensures
            k == self@.kind(),
    {
        match self {
            Record::Player(_) => RecordKind::Player,
            Record::Tint(_) => RecordKind::Tint,
            Record::Pos(_) => RecordKind::ReplicatedPos,
            Record::Aim(_) => RecordKind::ReplicatedAim,
            Record::Appearance(_) => RecordKind::Appearance,
            Record::Name(_) => RecordKind::Name,
        }
    }

    /// A second copy of the same value.
    pub fn duplicate(&self) -> (r: Record)
        ensures
            r@ == self@,
    {
        match self {
            Record::Player(p) => Record::Player(*p),
            Record::Tint(t) => Record::Tint(*t),
            Record::Pos(p) => Record::Pos(*p),
            Record::Aim(a) => Record::Aim(*a),
            Record::Appearance(a) => Record::Appearance(*a),
            Record::Name(n) => Record::Name(n.clone()),
        }
    }
}

/// The records of one entity: one optional slot for each kind.
#[derive(Debug)]
pub struct RecordSet {
    pub player: Option<Player>,
    pub tint: Option<Tint>,
    pub pos: Option<ReplicatedPos>,
    pub aim: Option<ReplicatedAim>,
    pub appearance: Option<Appearance>,
    pub name: Option<String>,
}

/// The mathematical value of a [`RecordSet`].
pub struct RecordSetView {
    pub player: Option<Player>,
    pub tint: Option<Tint>,
    pub pos: Option<ReplicatedPos>,
    pub aim: Option<ReplicatedAim>,
    pub appearance: Option<Appearance>,
    pub name: Option<Seq<char>>,
}

impl RecordSetView {
    /// The set with every slot empty.
    pub open spec fn empty() -> RecordSetView {
        RecordSetView {
            player: None,
            tint: None,
            pos: None,
            aim: None,
            appearance: None,
            name: None,
        }
    }

    /// What the slot of the given kind holds.
    pub open spec fn get(self, kind: RecordKind) -> Option<RecordView> {
        match kind {
            RecordKind::Player => match self.player {
                Some(p) => Some(RecordView::Player(p)),
                None => None,
            },
            RecordKind::Tint => match self.tint {
                Some(t) => Some(RecordView::Tint(t)),
                None => None,
            },
            RecordKind::ReplicatedPos => match self.pos {
                Some(p) => Some(RecordView::Pos(p)),
                None => None,
            },
            RecordKind::ReplicatedAim => match self.aim {
                Some(a) => Some(RecordView::Aim(a)),
                None => None,
            },
            RecordKind::Appearance => match self.appearance {
                Some(a) => Some(RecordView::Appearance(a)),
                None => None,
            },
            RecordKind::Name => match self.name {
                Some(n) => Some(RecordView::Name(n)),
                None => None,
            },
        }
    }

    /// The set with the record put into the slot of its kind.
    pub open spec fn with(self, record: RecordView) -> RecordSetView {
        match record {
            RecordView::Player(p) => RecordSetView { player: Some(p), ..self },
            RecordView::Tint(t) => RecordSetView { tint: Some(t), ..self },
            RecordView::Pos(p) => RecordSetView { pos: Some(p), ..self },
            RecordView::Aim(a) => RecordSetView { aim: Some(a), ..self },
            RecordView::Appearance(a) => RecordSetView { appearance: Some(a), ..self },
            RecordView::Name(n) => RecordSetView { name: Some(n), ..self },
        }
    }

    /// The set with the slot of the given kind emptied.
    pub open spec fn without(self, kind: RecordKind) -> RecordSetView {
        match kind {
            RecordKind::Player => RecordSetView { player: None, ..self },
            RecordKind::Tint => RecordSetView { tint: None, ..self },
            RecordKind::ReplicatedPos => RecordSetView { pos: None, ..self },
            RecordKind::ReplicatedAim => RecordSetView { aim: None, ..self },
            RecordKind::Appearance => RecordSetView { appearance: None, ..self },
            RecordKind::Name => RecordSetView { name: None, ..self },
        }
    }
}

impl View for RecordSet {
    type V = RecordSetView;

    open spec fn view(&self) -> RecordSetView {
        RecordSetView {
            player: self.player,
            tint: self.tint,
            pos: self.pos,
            aim: self.aim,
            appearance: self.appearance,
            name: match self.name {
                Some(n) => Some(n@),
                None => None,
            },
        }
    }
}

impl RecordSet {
    /// A set with every slot empty.
    pub fn new() -> (s: RecordSet)
        ensures
            s@ == RecordSetView::empty(),
    {
        RecordSet { player: None, tint: None, pos: None, aim: None, appearance: None, name: None }
    }

    /// A copy of the record in the slot of the given kind, if the slot is filled.
    pub fn get(&self, kind: RecordKind) -> (r: Option<Record>)
        ensures
            r is Some <==> self@.get(kind) is Some,
            r matches Some(rec) ==> Some(rec@) == self@.get(kind),
    {
        match kind {
            RecordKind::Player => match self.player {
                Some(p) => Some(Record::Player(p)),
                None => None,
            },
            RecordKind::Tint => match self.tint {
                Some(t) => Some(Record::Tint(t)),
                None => None,
            },
            RecordKind::ReplicatedPos => match self.pos {
                Some(p) => Some(Record::Pos(p)),
                None => None,
            },
            RecordKind::ReplicatedAim => match self.aim {
                Some(a) => Some(Record::Aim(a)),
                None => None,
            },
            RecordKind::Appearance => match self.appearance {
                Some(a) => Some(Record::Appearance(a)),
                None => None,
            },
            RecordKind::Name => match &self.name {
                Some(n) => Some(Record::Name(n.clone())),
                None => None,
            },
        }
    }

    /// Puts a record into the slot of its kind, replacing what was there.
    pub fn insert(&mut self, record: Record)
        ensures
            final(self)@ == old(self)@.with(record@),
    {
        match record {
            Record::Player(p) => {
                self.player = Some(p);
            },
            Record::Tint(t) => {
                self.tint = Some(t);
            },
            Record::Pos(p) => {
                self.pos = Some(p);
            },
            Record::Aim(a) => {
                self.aim = Some(a);
            },
            Record::Appearance(a) => {
                self.appearance = Some(a);
            },
            Record::Name(n) => {
                self.name = Some(n);
            },
        }
    }

    /// Empties the slot of the given kind.
    pub fn remove(&mut self, kind: RecordKind)
        ensures
            final(self)@ == old(self)@.without(kind),
    {
        match kind {
            RecordKind::Player => {
                self.player = None;
            },
            RecordKind::Tint => {
                self.tint = None;
            },
            RecordKind::ReplicatedPos => {
                self.pos = None;
            },
            RecordKind::ReplicatedAim => {
                self.aim = None;
            },
            RecordKind::Appearance => {
                self.appearance = None;
            },
            RecordKind::Name => {
                self.name = None;
            },
        }
    }

    /// Whether two sets hold the same thing in the slot of the given kind.
    pub fn same_slot(&self, other: &RecordSet, kind: RecordKind) -> (b: bool)
        ensures
            b == (self@.get(kind) == other@.get(kind)),
    {
        match kind {
            RecordKind::Player => match (self.player, other.player) {
                (Some(a), Some(b)) => a.0 == b.0,
                (None, None) => true,
                _ => false,
            },
            RecordKind::Tint => match (self.tint, other.tint) {
                (Some(a), Some(b)) => a.same(&b),
                (None, None) => true,
                _ => false,
            },
            RecordKind::ReplicatedPos => match (self.pos, other.pos) {
                (Some(a), Some(b)) => a.0.same(&b.0),
                (None, None) => true,
                _ => false,
            },
            RecordKind::ReplicatedAim => match (self.aim, other.aim) {
                (Some(a), Some(b)) => a.0.same(&b.0),
                (None, None) => true,
                _ => false,
            },
            RecordKind::Appearance => match (self.appearance, other.appearance) {
                (Some(a), Some(b)) => a == b,
                (None, None) => true,
                _ => false,
            },
            RecordKind::Name => match (&self.name, &other.name) {
                (Some(a), Some(b)) => *a == *b,
                (None, None) => true,
                _ => false,
            },
        }
    }

    /// A second copy of the whole set.
    pub fn duplicate(&self) -> (s: RecordSet)
        ensures
            s@ == self@,
    {
        RecordSet {
            player: self.player,
            tint: self.tint,
            pos: self.pos,
            aim: self.aim,
            appearance: self.appearance,
            name: match &self.name {
                Some(n) => Some(n.clone()),
                None => None,
            },
        }
    }
}

/// The records that every replicated entity starts with.
#[derive(Clone, Copy, Debug)]
pub struct ReplicationBundle {
    pub tint: Tint,
    pub appearance: Appearance,
    pub pos: ReplicatedPos,
    pub aim: ReplicatedAim,
}

impl ReplicationBundle {
    /// The bundle for a colour and a shape: at the origin, looking straight ahead.
    pub open spec fn spec_new(tint: Tint, appearance: Appearance) -> ReplicationBundle {
        ReplicationBundle {
            tint,
            appearance,
            pos: ReplicatedPos(Vec3::spec_zero()),
            aim: ReplicatedAim(Vec3::spec_neg_z()),
        }
    }

    /// The record set that an entity made from this bundle holds.
    pub open spec fn spec_records(self) -> RecordSetView {
        RecordSetView {
            player: None,
            tint: Some(self.tint),
            pos: Some(self.pos),
            aim: Some(self.aim),
            appearance: Some(self.appearance),
            name: None,
        }
    }

    #[verifier::when_used_as_spec(spec_new)]
    pub fn new(tint: Tint, appearance: Appearance) -> (b: ReplicationBundle)
        ensures
            b == ReplicationBundle::spec_new(tint, appearance),
    {
        ReplicationBundle {
            tint,
            appearance,
            pos: ReplicatedPos(Vec3::zero()),
            aim: ReplicatedAim(Vec3::neg_z()),
        }
    }

    /// Lays the bundle out as the record set of a new entity.
    pub fn records(&self) -> (s: RecordSet)
        ensures
            s@ == self.spec_records(),
    {
        RecordSet {
            player: None,
            tint: Some(self.tint),
            pos: Some(self.pos),
            aim: Some(self.aim),
            appearance: Some(self.appearance),
            name: None,
        }
    }
}

} // verus!
