//! Replication: what the server has last sent of every entity, the updates that bring
//! a client from there to the world as it is now, and what those updates do to a
//! client's copy.

use vstd::prelude::*;
use crate::records::{Record, RecordKind, RecordSet, RecordSetView, RecordView};
use crate::world::{Entity, World, WorldView};

verus! {

/// One step that brings a client's copy closer to the server's world.
#[derive(Debug)]
pub enum Update {
    /// The entity exists.
    Spawn { entity: Entity },
    /// The entity has this record.
    Insert { entity: Entity, record: Record },
    /// The entity has no record of this kind.
    Remove { entity: Entity, kind: RecordKind },
    /// The entity is gone.
    Despawn { entity: Entity },
}

/// The mathematical value of an [`Update`].
pub enum UpdateView {
    Spawn { entity: Entity },
    Insert { entity: Entity, record: RecordView },
    Remove { entity: Entity, kind: RecordKind },
    Despawn { entity: Entity },
}

impl View for Update {
    type V = UpdateView;

    open spec fn view(&self) -> UpdateView {
        match *self {
            Update::Spawn { entity } => UpdateView::Spawn { entity },
            Update::Insert { entity, record } => UpdateView::Insert { entity, record: record@ },
            Update::Remove { entity, kind } => UpdateView::Remove { entity, kind },
            Update::Despawn { entity } => UpdateView::Despawn { entity },
        }
    }
}

/// The mathematical values of a run of updates.
pub open spec fn update_views(updates: Seq<Update>) -> Seq<UpdateView> {
    updates.map_values(|u: Update| u@)
}

/// A copy of the replicated world: the records of every entity it knows, by handle.
pub type ReplicaView = Map<Entity, RecordSetView>;

/// The copy after one update. An update for an entity that the copy does not know
/// makes the entity known, except that nothing is removed from what is not there.
pub open spec fn apply_update(m: ReplicaView, u: UpdateView) -> ReplicaView {
    match u {
        UpdateView::Spawn { entity } => if m.contains_key(entity) {
            m
        } else {
            m.insert(entity, RecordSetView::empty())
        },
        UpdateView::Insert { entity, record } => if m.contains_key(entity) {
            m.insert(entity, m[entity].with(record))
        } else {
            m.insert(entity, RecordSetView::empty().with(record))
        },
        UpdateView::Remove { entity, kind } => if m.contains_key(entity) {
            m.insert(entity, m[entity].without(kind))
        } else {
            m
        },
        UpdateView::Despawn { entity } => m.remove(entity),
    }
}

/// The copy after a run of updates, applied in order.
pub open spec fn apply_updates(m: ReplicaView, updates: Seq<UpdateView>) -> ReplicaView
    decreases updates.len(),
{
    if updates.len() == 0 {
        m
    } else {
        apply_update(apply_updates(m, updates.drop_last()), updates.last())
    }
}

/// The records of every entity by slot: what a client should see of a world.
pub open spec fn visible(world: WorldView) -> Seq<Option<RecordSetView>> {
    Seq::new(
        world.slots.len(),
        |i: int|
            match world.slots[i] {
                Some(d) => Some(d.records),
                None => None,
            },
    )
}

/// What a run of slots holds in slot `i`; nothing beyond its end.
pub open spec fn slot_of(slots: Seq<Option<RecordSetView>>, i: int) -> Option<RecordSetView> {
    if 0 <= i < slots.len() {
        slots[i]
    } else {
        None
    }
}

/// The copy that holds exactly what a run of slots holds.
pub open spec fn as_replica(slots: Seq<Option<RecordSetView>>) -> ReplicaView {
    Map::new(
        |e: Entity| e.0 < slots.len() && slots[e.0 as int] is Some,
        |e: Entity| slots[e.0 as int]->0,
    )
}

/// The mathematical value of a [`ReplicationTable`].
pub struct TableView {
    /// What was last sent of every entity, by slot.
    pub sent: Seq<Option<RecordSetView>>,
    /// The records that are to be sent again whether they changed or not.
    pub dirty: Seq<(Entity, RecordKind)>,
}

impl TableView {
    /// The table of a server that has sent nothing yet.
    pub open spec fn empty() -> TableView {
        TableView { sent: Seq::empty(), dirty: Seq::empty() }
    }
}

/// The update for one slot of one entity: none when the slot holds what was sent and
/// is not marked, else the record it holds now, or its removal.
#[verifier::opaque]
pub open spec fn slot_delta(
    entity: Entity,
    kind: RecordKind,
    sent: Option<RecordView>,
    now: Option<RecordView>,
    marked: bool,
) -> Seq<UpdateView> {
    if sent == now && !marked {
        Seq::empty()
    } else {
        match now {
            Some(record) => seq![UpdateView::Insert { entity, record }],
            None => seq![UpdateView::Remove { entity, kind }],
        }
    }
}

/// The updates for the slots of one entity, in the order of the kinds.
pub open spec fn records_delta(
    entity: Entity,
    sent: RecordSetView,
    now: RecordSetView,
    dirty: Seq<(Entity, RecordKind)>,
) -> Seq<UpdateView> {
    slot_delta(
        entity,
        RecordKind::Player,
        sent.get(RecordKind::Player),
        now.get(RecordKind::Player),
        dirty.contains((entity, RecordKind::Player)),
    ) + slot_delta(
        entity,
        RecordKind::Tint,
        sent.get(RecordKind::Tint),
        now.get(RecordKind::Tint),
        dirty.contains((entity, RecordKind::Tint)),
    ) + slot_delta(
        entity,
        RecordKind::ReplicatedPos,
        sent.get(RecordKind::ReplicatedPos),
        now.get(RecordKind::ReplicatedPos),
        dirty.contains((entity, RecordKind::ReplicatedPos)),
    ) + slot_delta(
        entity,
        RecordKind::ReplicatedAim,
        sent.get(RecordKind::ReplicatedAim),
        now.get(RecordKind::ReplicatedAim),
        dirty.contains((entity, RecordKind::ReplicatedAim)),
    ) + slot_delta(
        entity,
        RecordKind::Appearance,
        sent.get(RecordKind::Appearance),
        now.get(RecordKind::Appearance),
        dirty.contains((entity, RecordKind::Appearance)),
    ) + slot_delta(
        entity,
        RecordKind::Name,
        sent.get(RecordKind::Name),
        now.get(RecordKind::Name),
        dirty.contains((entity, RecordKind::Name)),
    )
}

/// The updates for one entity: its removal when it is gone, its making when it is
/// new, and the updates for its slots.
pub open spec fn entity_delta(
    entity: Entity,
    sent: Option<RecordSetView>,
    now: Option<RecordSetView>,
    dirty: Seq<(Entity, RecordKind)>,
) -> Seq<UpdateView> {
    match (sent, now) {
        (None, None) => Seq::empty(),
        (Some(_), None) => seq![UpdateView::Despawn { entity }],
        (None, Some(b)) => seq![UpdateView::Spawn { entity }] + records_delta(
            entity,
            RecordSetView::empty(),
            b,
            dirty,
        ),
        (Some(a), Some(b)) => records_delta(entity, a, b, dirty),
    }
}

/// The updates for the entities in the slots before `n`, slot by slot.
pub open spec fn deltas_upto(t: TableView, now: Seq<Option<RecordSetView>>, n: int) -> Seq<
    UpdateView,
>
    decreases n,
{
    if n <= 0 {
        Seq::empty()
    } else {
        deltas_upto(t, now, n - 1) + entity_delta(
            Entity((n - 1) as usize),
            slot_of(t.sent, n - 1),
            slot_of(now, n - 1),
            t.dirty,
        )
    }
}

/// How many slots the table and the world have between them.
pub open spec fn slot_count(t: TableView, world: WorldView) -> int {
    if t.sent.len() > world.slots.len() {
        t.sent.len() as int
    } else {
        world.slots.len() as int
    }
}

/// The updates that bring a client from what the table says was sent to the world as
/// it is now.
pub open spec fn deltas(t: TableView, world: WorldView) -> Seq<UpdateView> {
    deltas_upto(t, visible(world), slot_count(t, world))
}

/// The updates that bring a client that knows nothing to the world as it is now.
pub open spec fn snapshot_of(world: WorldView) -> Seq<UpdateView> {
    deltas(TableView::empty(), world)
}

/// The server's memory of what it has last sent of every entity.
pub struct ReplicationTable {
    sent: Vec<Option<RecordSet>>,
    dirty: Vec<(Entity, RecordKind)>,
}

/// The mathematical value of what was sent of one slot.
pub open spec fn sent_view(slot: Option<RecordSet>) -> Option<RecordSetView> {
    match slot {
        Some(r) => Some(r@),
        None => None,
    }
}

impl View for ReplicationTable {
    type V = TableView;

    closed spec fn view(&self) -> TableView {
        TableView {
            sent: Seq::new(self.sent@.len(), |i: int| sent_view(self.sent@[i])),
            dirty: self.dirty@,
        }
    }
}

/// Appends the update for one slot of one entity.
fn push_slot_delta(
    out: &mut Vec<Update>,
    entity: Entity,
    kind: RecordKind,
    sent: &RecordSet,
    now: &RecordSet,
    marked: bool,
)
    ensures
        update_views(final(out)@) == update_views(old(out)@) + slot_delta(
            entity,
            kind,
            sent@.get(kind),
            now@.get(kind),
            marked,
        ),
{
    reveal(slot_delta);
    if !sent.same_slot(now, kind) || marked {
        match now.get(kind) {
            Some(record) => {
                out.push(Update::Insert { entity, record });
            },
            None => {
                out.push(Update::Remove { entity, kind });
            },
        }
    }
    assert(update_views(out@) =~= update_views(old(out)@) + slot_delta(
        entity,
        kind,
        sent@.get(kind),
        now@.get(kind),
        marked,
    ));
}

/// Whether a record of an entity is marked to be sent again.
fn is_marked(dirty: &Vec<(Entity, RecordKind)>, entity: Entity, kind: RecordKind) -> (b: bool)
    ensures
        b == dirty@.contains((entity, kind)),
{
    let mut i: usize = 0;
    while i < dirty.len()
        invariant
            i <= dirty.len(),
            forall|j: int| 0 <= j < i ==> dirty@[j] != (entity, kind),
        decreases dirty.len() - i,
    {
        if dirty[i].0.0 == entity.0 && dirty[i].1 == kind {
            return true;
        }
        i = i + 1;
    }
    false
}

/// Appends the updates for the slots of one entity.
fn push_records_delta(
    out: &mut Vec<Update>,
    entity: Entity,
    sent: &RecordSet,
    now: &RecordSet,
    dirty: &Vec<(Entity, RecordKind)>,
)
    ensures
        update_views(final(out)@) == update_views(old(out)@) + records_delta(
            entity,
            sent@,
            now@,
            dirty@,
        ),
{
    let ghost start = update_views(out@);
    let ghost d1 = slot_delta(
        entity,
        RecordKind::Player,
        sent@.get(RecordKind::Player),
        now@.get(RecordKind::Player),
        dirty@.contains((entity, RecordKind::Player)),
    );
    let marked = is_marked(dirty, entity, RecordKind::Player);
    push_slot_delta(out, entity, RecordKind::Player, sent, now, marked);
    assert(update_views(out@) == start + d1);
    let ghost d2 = slot_delta(
        entity,
        RecordKind::Tint,
        sent@.get(RecordKind::Tint),
        now@.get(RecordKind::Tint),
        dirty@.contains((entity, RecordKind::Tint)),
    );
    let marked = is_marked(dirty, entity, RecordKind::Tint);
    push_slot_delta(out, entity, RecordKind::Tint, sent, now, marked);
    assert(update_views(out@) =~= start + (d1 + d2));
    let ghost d3 = slot_delta(
        entity,
        RecordKind::ReplicatedPos,
        sent@.get(RecordKind::ReplicatedPos),
        now@.get(RecordKind::ReplicatedPos),
        dirty@.contains((entity, RecordKind::ReplicatedPos)),
    );
    let marked = is_marked(dirty, entity, RecordKind::ReplicatedPos);
    push_slot_delta(out, entity, RecordKind::ReplicatedPos, sent, now, marked);
    assert(update_views(out@) =~= start + ((d1 + d2 + d3)));
    let ghost d4 = slot_delta(
        entity,
        RecordKind::ReplicatedAim,
        sent@.get(RecordKind::ReplicatedAim),
        now@.get(RecordKind::ReplicatedAim),
        dirty@.contains((entity, RecordKind::ReplicatedAim)),
    );
    let marked = is_marked(dirty, entity, RecordKind::ReplicatedAim);
    push_slot_delta(out, entity, RecordKind::ReplicatedAim, sent, now, marked);
    assert(update_views(out@) =~= start + (((d1 + d2 + d3) + d4)));
    let ghost d5 = slot_delta(
        entity,
        RecordKind::Appearance,
        sent@.get(RecordKind::Appearance),
        now@.get(RecordKind::Appearance),
        dirty@.contains((entity, RecordKind::Appearance)),
    );
    let marked = is_marked(dirty, entity, RecordKind::Appearance);
    push_slot_delta(out, entity, RecordKind::Appearance, sent, now, marked);
    assert(update_views(out@) =~= start + ((((d1 + d2 + d3) + d4) + d5)));
    let ghost d6 = slot_delta(
        entity,
        RecordKind::Name,
        sent@.get(RecordKind::Name),
        now@.get(RecordKind::Name),
        dirty@.contains((entity, RecordKind::Name)),
    );
    let marked = is_marked(dirty, entity, RecordKind::Name);
    push_slot_delta(out, entity, RecordKind::Name, sent, now, marked);
    assert(update_views(out@) =~= start + (((((d1 + d2 + d3) + d4) + d5) + d6)));
    assert(records_delta(entity, sent@, now@, dirty@) == d1 + d2 + d3 + d4 + d5 + d6);
}

impl ReplicationTable {
    /// The table of a server that has sent nothing yet.
    pub fn new() -> (t: ReplicationTable)
        ensures
            t@ == TableView::empty(),
    {
        let t = ReplicationTable { sent: Vec::new(), dirty: Vec::new() };
        assert(t@.sent =~= Seq::empty());
        t
    }

    /// Marks a record of an entity, so that the next updates carry it whether it
    /// changed or not.
    pub fn mark_dirty(&mut self, entity: Entity, kind: RecordKind)
        ensures
            final(self)@ == (TableView {
                sent: old(self)@.sent,
                dirty: old(self)@.dirty.push((entity, kind)),
            }),
    {
        self.dirty.push((entity, kind));
        assert(self@.sent =~= old(self)@.sent);
    }

    /// The updates that bring a client from what was last sent to the world as it is
    /// now. The table then holds the world as sent, with no record marked.
    pub fn collect(&mut self, world: &World) -> (updates: Vec<Update>)
        ensures
            update_views(updates@) == deltas(old(self)@, world@),
            final(self)@ == (TableView { sent: visible(world@), dirty: Seq::empty() }),
    {
        let n = if self.sent.len() > world.len() {
            self.sent.len()
        } else {
            world.len()
        };
        let mut out: Vec<Update> = Vec::new();
        let mut i: usize = 0;
        assert(update_views(out@) =~= Seq::empty());
        while i < n
            invariant
                i <= n,
                n == slot_count(self@, world@),
                *self == *old(self),
                update_views(out@) == deltas_upto(self@, visible(world@), i as int),
            decreases n - i,
        {
            let ghost before = update_views(out@);
            let now = world.get(Entity(i));
            let sent = if i < self.sent.len() {
                self.sent[i].as_ref()
            } else {
                None
            };
            proof {
                assert(slot_of(self@.sent, i as int) == sent_view(
                    if i < self.sent@.len() {
                        self.sent@[i as int]
                    } else {
                        None
                    },
                ));
            }
            match (sent, now) {
                (None, None) => {},
                (Some(_), None) => {
                    out.push(Update::Despawn { entity: Entity(i) });
                    assert(update_views(out@) =~= before + seq![
                        UpdateView::Despawn { entity: Entity(i) },
                    ]);
                },
                (None, Some(d)) => {
                    out.push(Update::Spawn { entity: Entity(i) });
                    assert(update_views(out@) =~= before + seq![
                        UpdateView::Spawn { entity: Entity(i) },
                    ]);
                    let nothing = RecordSet::new();
                    push_records_delta(&mut out, Entity(i), &nothing, &d.records, &self.dirty);
                    assert(update_views(out@) =~= before + (seq![
                        UpdateView::Spawn { entity: Entity(i) },
                    ] + records_delta(
                        Entity(i),
                        RecordSetView::empty(),
                        d.records@,
                        self.dirty@,
                    )));
                },
                (Some(a), Some(d)) => {
                    push_records_delta(&mut out, Entity(i), a, &d.records, &self.dirty);
                },
            }
            i = i + 1;
        }
        let mut fresh: Vec<Option<RecordSet>> = Vec::new();
        let mut j: usize = 0;
        let m = world.len();
        while j < m
            invariant
                j <= m,
                m == world@.slots.len(),
                fresh@.len() == j,
                forall|k: int| 0 <= k < j ==> sent_view(#[trigger] fresh@[k]) == visible(world@)[k],
            decreases m - j,
        {
            let slot = match world.get(Entity(j)) {
                Some(d) => Some(d.records.duplicate()),
                None => None,
            };
            fresh.push(slot);
            j = j + 1;
        }
        self.sent = fresh;
        self.dirty = Vec::new();
        assert(self@.sent =~= visible(world@));
        assert(self@.dirty =~= Seq::empty());
        out
    }

    /// The updates that bring a client that knows nothing to the world as it is now.
    pub fn snapshot(world: &World) -> (updates: Vec<Update>)
        ensures
            update_views(updates@) == snapshot_of(world@),
    {
        let mut scratch = ReplicationTable::new();
        scratch.collect(world)
    }
}

/// A record set with one slot replaced.
pub open spec fn put_slot(records: RecordSetView, kind: RecordKind, now: Option<RecordView>) -> RecordSetView {
    match now {
        Some(record) => records.with(record),
        None => records.without(kind),
    }
}

/// Applying one run of updates after another is applying the two as one run.
pub proof fn lemma_apply_concat(m: ReplicaView, first: Seq<UpdateView>, second: Seq<UpdateView>)
    ensures
        apply_updates(m, first + second) == apply_updates(apply_updates(m, first), second),
    decreases second.len(),
{
    if second.len() == 0 {
        assert(first + second =~= first);
    } else {
        assert((first + second).drop_last() =~= first + second.drop_last());
        lemma_apply_concat(m, first, second.drop_last());
    }
}

/// Applying a single update is applying the run that holds just that update.
pub proof fn lemma_apply_single(m: ReplicaView, u: UpdateView)
    ensures
        apply_updates(m, seq![u]) == apply_update(m, u),
{
    assert(seq![u].drop_last() =~= Seq::<UpdateView>::empty());
    assert(apply_updates(m, seq![u].drop_last()) == m);
}

/// The update for one slot puts into that slot of the copy what the world holds,
/// as long as a slot for which nothing is sent holds it already.
pub proof fn lemma_apply_slot_delta(
    m: ReplicaView,
    entity: Entity,
    kind: RecordKind,
    sent: Option<RecordView>,
    now: Option<RecordView>,
    marked: bool,
)
    requires
        m.contains_key(entity),
        now matches Some(r) ==> r.kind() == kind,
        (sent == now && !marked) ==> m[entity].get(kind) == now,
    ensures
        apply_updates(m, slot_delta(entity, kind, sent, now, marked)) == m.insert(
            entity,
            put_slot(m[entity], kind, now),
        ),
{
    reveal(slot_delta);
    if sent == now && !marked {
        assert(put_slot(m[entity], kind, now) == m[entity]);
        assert(m.insert(entity, m[entity]) =~= m);
    } else {
        match now {
            Some(record) => {
                lemma_apply_single(m, UpdateView::Insert { entity, record });
            },
            None => {
                lemma_apply_single(m, UpdateView::Remove { entity, kind });
            },
        }
    }
}

/// The updates for the slots of one entity leave the copy with the entity's records
/// as the world holds them, as long as every slot for which nothing is sent holds
/// them already.
pub proof fn lemma_apply_records_delta(
    m: ReplicaView,
    entity: Entity,
    sent: RecordSetView,
    now: RecordSetView,
    dirty: Seq<(Entity, RecordKind)>,
)
    requires
        m.contains_key(entity),
        forall|kind: RecordKind|
            sent.get(kind) == now.get(kind) ==> #[trigger] m[entity].get(kind) == now.get(kind),
    ensures
        apply_updates(m, records_delta(entity, sent, now, dirty)) == m.insert(entity, now),
{
    let d1 = slot_delta(
        entity,
        RecordKind::Player,
        sent.get(RecordKind::Player),
        now.get(RecordKind::Player),
        dirty.contains((entity, RecordKind::Player)),
    );
    let d2 = slot_delta(
        entity,
        RecordKind::Tint,
        sent.get(RecordKind::Tint),
        now.get(RecordKind::Tint),
        dirty.contains((entity, RecordKind::Tint)),
    );
    let d3 = slot_delta(
        entity,
        RecordKind::ReplicatedPos,
        sent.get(RecordKind::ReplicatedPos),
        now.get(RecordKind::ReplicatedPos),
        dirty.contains((entity, RecordKind::ReplicatedPos)),
    );
    let d4 = slot_delta(
        entity,
        RecordKind::ReplicatedAim,
        sent.get(RecordKind::ReplicatedAim),
        now.get(RecordKind::ReplicatedAim),
        dirty.contains((entity, RecordKind::ReplicatedAim)),
    );
    let d5 = slot_delta(
        entity,
        RecordKind::Appearance,
        sent.get(RecordKind::Appearance),
        now.get(RecordKind::Appearance),
        dirty.contains((entity, RecordKind::Appearance)),
    );
    let d6 = slot_delta(
        entity,
        RecordKind::Name,
        sent.get(RecordKind::Name),
        now.get(RecordKind::Name),
        dirty.contains((entity, RecordKind::Name)),
    );
    let r0 = m[entity];
    let r1 = put_slot(r0, RecordKind::Player, now.get(RecordKind::Player));
    let r2 = put_slot(r1, RecordKind::Tint, now.get(RecordKind::Tint));
    let r3 = put_slot(r2, RecordKind::ReplicatedPos, now.get(RecordKind::ReplicatedPos));
    let r4 = put_slot(r3, RecordKind::ReplicatedAim, now.get(RecordKind::ReplicatedAim));
    let r5 = put_slot(r4, RecordKind::Appearance, now.get(RecordKind::Appearance));
    let r6 = put_slot(r5, RecordKind::Name, now.get(RecordKind::Name));
    let m1 = m.insert(entity, r1);
    let m2 = m.insert(entity, r2);
    let m3 = m.insert(entity, r3);
    let m4 = m.insert(entity, r4);
    let m5 = m.insert(entity, r5);
    let m6 = m.insert(entity, r6);
    assert(m[entity].get(RecordKind::Tint) == r1.get(RecordKind::Tint));
    assert(m[entity].get(RecordKind::ReplicatedPos) == r2.get(RecordKind::ReplicatedPos));
    assert(m[entity].get(RecordKind::ReplicatedAim) == r3.get(RecordKind::ReplicatedAim));
    assert(m[entity].get(RecordKind::Appearance) == r4.get(RecordKind::Appearance));
    assert(m[entity].get(RecordKind::Name) == r5.get(RecordKind::Name));
    lemma_apply_slot_delta(
        m,
        entity,
        RecordKind::Player,
        sent.get(RecordKind::Player),
        now.get(RecordKind::Player),
        dirty.contains((entity, RecordKind::Player)),
    );
    lemma_apply_slot_delta(
        m1,
        entity,
        RecordKind::Tint,
        sent.get(RecordKind::Tint),
        now.get(RecordKind::Tint),
        dirty.contains((entity, RecordKind::Tint)),
    );
    assert(m1.insert(entity, r2) =~= m2);
    lemma_apply_slot_delta(
        m2,
        entity,
        RecordKind::ReplicatedPos,
        sent.get(RecordKind::ReplicatedPos),
        now.get(RecordKind::ReplicatedPos),
        dirty.contains((entity, RecordKind::ReplicatedPos)),
    );
    assert(m2.insert(entity, r3) =~= m3);
    lemma_apply_slot_delta(
        m3,
        entity,
        RecordKind::ReplicatedAim,
        sent.get(RecordKind::ReplicatedAim),
        now.get(RecordKind::ReplicatedAim),
        dirty.contains((entity, RecordKind::ReplicatedAim)),
    );
    assert(m3.insert(entity, r4) =~= m4);
    lemma_apply_slot_delta(
        m4,
        entity,
        RecordKind::Appearance,
        sent.get(RecordKind::Appearance),
        now.get(RecordKind::Appearance),
        dirty.contains((entity, RecordKind::Appearance)),
    );
    assert(m4.insert(entity, r5) =~= m5);
    lemma_apply_slot_delta(
        m5,
        entity,
        RecordKind::Name,
        sent.get(RecordKind::Name),
        now.get(RecordKind::Name),
        dirty.contains((entity, RecordKind::Name)),
    );
    assert(m5.insert(entity, r6) =~= m6);
    lemma_apply_concat(m, d1, d2);
    lemma_apply_concat(m, d1 + d2, d3);
    lemma_apply_concat(m, d1 + d2 + d3, d4);
    lemma_apply_concat(m, d1 + d2 + d3 + d4, d5);
    lemma_apply_concat(m, d1 + d2 + d3 + d4 + d5, d6);
    assert(r6.name == now.name);
    assert(r6 == now);
}

/// The updates for one entity leave the copy with the entity as the world holds it.
pub proof fn lemma_apply_entity_delta(
    m: ReplicaView,
    entity: Entity,
    sent: Option<RecordSetView>,
    now: Option<RecordSetView>,
    dirty: Seq<(Entity, RecordKind)>,
)
    requires
        sent is None ==> (!m.contains_key(entity) || Some(m[entity]) == now),
        sent matches Some(a) ==> m.contains_key(entity) && (m[entity] == a || Some(m[entity])
            == now),
    ensures
        apply_updates(m, entity_delta(entity, sent, now, dirty)) == (match now {
            Some(b) => m.insert(entity, b),
            None => m.remove(entity),
        }),
{
    match (sent, now) {
        (None, None) => {
            assert(m.remove(entity) =~= m);
        },
        (Some(_), None) => {
            lemma_apply_single(m, UpdateView::Despawn { entity });
        },
        (None, Some(b)) => {
            let spawned = apply_update(m, UpdateView::Spawn { entity });
            lemma_apply_single(m, UpdateView::Spawn { entity });
            lemma_apply_concat(
                m,
                seq![UpdateView::Spawn { entity }],
                records_delta(entity, RecordSetView::empty(), b, dirty),
            );
            lemma_apply_records_delta(spawned, entity, RecordSetView::empty(), b, dirty);
            assert(spawned.insert(entity, b) =~= m.insert(entity, b));
        },
        (Some(a), Some(b)) => {
            lemma_apply_records_delta(m, entity, a, b, dirty);
        },
    }
}

/// A copy that holds what was sent for the slots from `n` on, and what the world
/// holds now for the slots before.
pub open spec fn caught_up_to(
    sent: Seq<Option<RecordSetView>>,
    now: Seq<Option<RecordSetView>>,
    n: int,
) -> ReplicaView {
    Map::new(
        |e: Entity|
            if e.0 < n {
                slot_of(now, e.0 as int) is Some
            } else {
                slot_of(sent, e.0 as int) is Some
            },
        |e: Entity|
            if e.0 < n {
                slot_of(now, e.0 as int)->0
            } else {
                slot_of(sent, e.0 as int)->0
            },
    )
}

/// The updates for the slots before `n` bring a client that holds what was sent up
/// to date in those slots.
pub proof fn lemma_deltas_catch_up(t: TableView, now: Seq<Option<RecordSetView>>, n: int)
    requires
        0 <= n <= usize::MAX + 1,
    ensures
        apply_updates(as_replica(t.sent), deltas_upto(t, now, n)) == caught_up_to(t.sent, now, n),
    decreases n,
{
    if n == 0 {
        assert(caught_up_to(t.sent, now, 0) =~= as_replica(t.sent));
    } else {
        lemma_deltas_catch_up(t, now, n - 1);
        let e = Entity((n - 1) as usize);
        let before = caught_up_to(t.sent, now, n - 1);
        lemma_apply_concat(
            as_replica(t.sent),
            deltas_upto(t, now, n - 1),
            entity_delta(e, slot_of(t.sent, n - 1), slot_of(now, n - 1), t.dirty),
        );
        lemma_apply_entity_delta(before, e, slot_of(t.sent, n - 1), slot_of(now, n - 1), t.dirty);
        let after = match slot_of(now, n - 1) {
            Some(b) => before.insert(e, b),
            None => before.remove(e),
        };
        assert(after =~= caught_up_to(t.sent, now, n));
    }
}

/// A client that held what the table says was sent holds, after the updates, every
/// entity of the world with the records that the world holds now, and nothing else.
pub proof fn lemma_deltas_bring_up_to_date(t: TableView, world: WorldView)
    requires
        t.sent.len() <= usize::MAX,
        world.slots.len() <= usize::MAX,
    ensures
        apply_updates(as_replica(t.sent), deltas(t, world)) == as_replica(visible(world)),
{
    let n = slot_count(t, world);
    lemma_deltas_catch_up(t, visible(world), n);
    assert(caught_up_to(t.sent, visible(world), n) =~= as_replica(visible(world)));
}

/// A client that joins with nothing holds the world after a snapshot.
pub proof fn lemma_snapshot_brings_up_to_date(world: WorldView)
    requires
        world.slots.len() <= usize::MAX,
    ensures
        apply_updates(Map::empty(), snapshot_of(world)) == as_replica(visible(world)),
{
    lemma_deltas_bring_up_to_date(TableView::empty(), world);
    assert(as_replica(TableView::empty().sent) =~= Map::<Entity, RecordSetView>::empty());
}

/// When nothing is marked, an entity that is as it was sent needs no update.
pub proof fn lemma_same_entity_sends_nothing(entity: Entity, slot: Option<RecordSetView>)
    ensures
        entity_delta(entity, slot, slot, Seq::empty()) == Seq::<UpdateView>::empty(),
{
    reveal(slot_delta);
    match slot {
        Some(a) => {
            assert(records_delta(entity, a, a, Seq::empty()) =~= Seq::<UpdateView>::empty());
        },
        None => {},
    }
}

/// No update is sent for a world that is as it was sent, with no record marked.
pub proof fn lemma_unchanged_world_sends_nothing(t: TableView, world: WorldView)
    requires
        t.sent == visible(world),
        t.dirty.len() == 0,
    ensures
        deltas(t, world) == Seq::<UpdateView>::empty(),
{
    assert(t.dirty =~= Seq::empty());
    lemma_unchanged_upto(t, slot_count(t, world));
}

/// No update is sent for the slots before `n` when they are as they were sent.
pub proof fn lemma_unchanged_upto(t: TableView, n: int)
    requires
        t.dirty == Seq::<(Entity, RecordKind)>::empty(),
    ensures
        deltas_upto(t, t.sent, n) == Seq::<UpdateView>::empty(),
    decreases n,
{
    if n > 0 {
        lemma_unchanged_upto(t, n - 1);
        lemma_same_entity_sends_nothing(Entity((n - 1) as usize), slot_of(t.sent, n - 1));
        assert(deltas_upto(t, t.sent, n) =~= Seq::<UpdateView>::empty());
    }
}

/// A snapshot of the world changes nothing in the slots before `n` for a client that
/// holds the world already.
pub proof fn lemma_snapshot_upto_changes_nothing(now: Seq<Option<RecordSetView>>, n: int)
    requires
        0 <= n <= usize::MAX + 1,
    ensures
        apply_updates(as_replica(now), deltas_upto(TableView::empty(), now, n)) == as_replica(
            now,
        ),
    decreases n,
{
    if n > 0 {
        lemma_snapshot_upto_changes_nothing(now, n - 1);
        let t = TableView::empty();
        let e = Entity((n - 1) as usize);
        let m = as_replica(now);
        lemma_apply_concat(
            m,
            deltas_upto(t, now, n - 1),
            entity_delta(e, slot_of(t.sent, n - 1), slot_of(now, n - 1), t.dirty),
        );
        lemma_apply_entity_delta(m, e, None, slot_of(now, n - 1), t.dirty);
        match slot_of(now, n - 1) {
            Some(b) => {
                assert(m.insert(e, b) =~= m);
            },
            None => {
                assert(m.remove(e) =~= m);
            },
        }
    }
}

/// Sending the whole world again to a client that holds it changes nothing for that
/// client.
pub proof fn lemma_snapshot_again_changes_nothing(world: WorldView)
    requires
        world.slots.len() <= usize::MAX,
    ensures
        apply_updates(as_replica(visible(world)), snapshot_of(world)) == as_replica(
            visible(world),
        ),
{
    lemma_snapshot_upto_changes_nothing(visible(world), slot_count(TableView::empty(), world));
}

/// What a client holds after the broadcast of tick `n`, when it joined with the
/// broadcast of tick `joined`: it got the whole world then, and since then, with each
/// broadcast, what had changed since the one before. `worlds[k]` is the world at the
/// broadcast of tick `k`, and `marks[k]` are the records that were marked then.
pub open spec fn client_after(
    worlds: Seq<WorldView>,
    marks: Seq<Seq<(Entity, RecordKind)>>,
    joined: int,
    n: int,
) -> ReplicaView
    recommends
        0 <= joined <= n < worlds.len(),
        marks.len() == worlds.len(),
    decreases n - joined,
{
    if n <= joined {
        apply_updates(Map::empty(), snapshot_of(worlds[joined]))
    } else {
        apply_updates(
            client_after(worlds, marks, joined, n - 1),
            deltas(TableView { sent: visible(worlds[n - 1]), dirty: marks[n] }, worlds[n]),
        )
    }
}

/// A client that has had a broadcast holds, after every later broadcast, every entity
/// of the world with the values that were broadcast last, and no entity besides.
pub proof fn lemma_client_follows_broadcasts(
    worlds: Seq<WorldView>,
    marks: Seq<Seq<(Entity, RecordKind)>>,
    joined: int,
    n: int,
)
    requires
        0 <= joined <= n < worlds.len(),
        marks.len() == worlds.len(),
        forall|k: int| 0 <= k < worlds.len() ==> (#[trigger] worlds[k]).slots.len() <= usize::MAX,
    ensures
        client_after(worlds, marks, joined, n) == as_replica(visible(worlds[n])),
    decreases n - joined,
{
    if n == joined {
        lemma_snapshot_brings_up_to_date(worlds[joined]);
    } else {
        lemma_client_follows_broadcasts(worlds, marks, joined, n - 1);
        lemma_deltas_bring_up_to_date(
            TableView { sent: visible(worlds[n - 1]), dirty: marks[n] },
            worlds[n],
        );
    }
}

} // verus!
