//! The world: an arena of entities under stable integer handles. A handle is never
//! given out twice, so a handle that outlives its entity can only miss.

use vstd::prelude::*;
use crate::geometry::Vec3;
use crate::records::{Record, RecordKind, RecordSet, RecordSetView, RecordView, ReplicatedPos};

verus! {

/// The handle of an entity: its place in the arena.
#[derive(Clone, Copy, Debug, PartialEq, Eq, Structural)]
pub struct Entity(pub usize);

/// What the world keeps for one live entity.
#[derive(Debug)]
pub struct EntityData {
    /// The entity that owns this one, if any. An owned entity goes when its owner goes.
    pub parent: Option<Entity>,
    /// Where the simulation has put the entity.
    pub transform: Vec3,
    /// Whether the simulation has moved the entity since its position was last published.
    pub moved: bool,
    /// The replicated records of the entity.
    pub records: RecordSet,
}

/// The mathematical value of an [`EntityData`].
pub struct EntityView {
    pub parent: Option<Entity>,
    pub transform: Vec3,
    pub moved: bool,
    pub records: RecordSetView,
}

impl View for EntityData {
    type V = EntityView;

    open spec fn view(&self) -> EntityView {
        EntityView {
            parent: self.parent,
            transform: self.transform,
            moved: self.moved,
            records: self.records@,
        }
    }
}

/// The mathematical value of a [`World`]: one slot for each handle ever given out,
/// empty once the entity is gone.
pub struct WorldView {
    pub slots: Seq<Option<EntityView>>,
}

impl WorldView {
    /// The world in which no handle was given out yet.
    pub open spec fn empty() -> WorldView {
        WorldView { slots: Seq::empty() }
    }

    /// Whether the handle names a live entity.
    pub open spec fn alive(self, e: Entity) -> bool {
        e.0 < self.slots.len() && self.slots[e.0 as int] is Some
    }

    /// The live entity under a handle.
    pub open spec fn get(self, e: Entity) -> EntityView
        recommends
            self.alive(e),
    {
        self.slots[e.0 as int]->0
    }

    /// Every owned entity was made after its owner, and its owner is alive.
    pub open spec fn wf(self) -> bool {
        forall|i: int|
            0 <= i < self.slots.len() ==> match #[trigger] self.slots[i] {
                Some(d) => match d.parent {
                    Some(p) => p.0 < i && self.slots[p.0 as int] is Some,
                    None => true,
                },
                None => true,
            }
    }

    /// Whether the live entity in slot `i` is `root` or is owned by it, directly or
    /// through other entities.
    pub open spec fn descends(self, i: int, root: int) -> bool
        decreases i,
    {
        if i < 0 || i >= self.slots.len() {
            false
        } else {
            match self.slots[i] {
                Some(d) => i == root || match d.parent {
                    Some(p) => p.0 < i && self.descends(p.0 as int, root),
                    None => false,
                },
                None => false,
            }
        }
    }

    /// How many of the entities in the slots before `upto` are `root` or owned by it.
    pub open spec fn descendants_before(self, root: int, upto: int) -> nat
        decreases upto,
    {
        if upto <= 0 {
            0
        } else {
            self.descendants_before(root, upto - 1) + (if self.descends(upto - 1, root) {
                1nat
            } else {
                0nat
            })
        }
    }

    /// How many entities go when `root` is removed: `root` itself, if it is alive,
    /// and everything it owns.
    pub open spec fn descendants(self, root: Entity) -> nat {
        self.descendants_before(root.0 as int, self.slots.len() as int)
    }

    /// The world with a new entity in the next free slot.
    pub open spec fn spawn(self, d: EntityView) -> WorldView {
        WorldView { slots: self.slots.push(Some(d)) }
    }

    /// The world without `root` and without everything it owns.
    pub open spec fn despawn(self, root: Entity) -> WorldView {
        WorldView {
            slots: Seq::new(
                self.slots.len(),
                |i: int| if self.descends(i, root.0 as int) { None } else { self.slots[i] },
            ),
        }
    }

    /// The world with new entities in the next free slots, in the order given.
    pub open spec fn spawn_all(self, ds: Seq<EntityView>) -> WorldView {
        WorldView {
            slots: Seq::new(
                self.slots.len() + ds.len(),
                |i: int|
                    if i < self.slots.len() {
                        self.slots[i]
                    } else {
                        Some(ds[i - self.slots.len()])
                    },
            ),
        }
    }

    /// Whether this world came from `earlier` by removing entities only.
    pub open spec fn pruned_from(self, earlier: WorldView) -> bool {
        &&& self.slots.len() == earlier.slots.len()
        &&& forall|i: int|
            0 <= i < self.slots.len() ==> #[trigger] self.slots[i] is None || self.slots[i]
                == earlier.slots[i]
    }

    /// The world with the live entity under `e` replaced.
    pub open spec fn put(self, e: Entity, d: EntityView) -> WorldView {
        WorldView { slots: self.slots.update(e.0 as int, Some(d)) }
    }

    /// The world with a record put on the entity under `e`, if it is alive.
    pub open spec fn with_record(self, e: Entity, record: RecordView) -> WorldView {
        if self.alive(e) {
            self.put(
                e,
                EntityView { records: self.get(e).records.with(record), ..self.get(e) },
            )
        } else {
            self
        }
    }

    /// The world with a record taken off the entity under `e`, if it is alive.
    pub open spec fn without_record(self, e: Entity, kind: RecordKind) -> WorldView {
        if self.alive(e) {
            self.put(
                e,
                EntityView { records: self.get(e).records.without(kind), ..self.get(e) },
            )
        } else {
            self
        }
    }

    /// The world after the simulation has put the entity under `e` at `at`. An entity
    /// counts as moved once its position differs from the one it had.
    pub open spec fn moved_to(self, e: Entity, at: Vec3) -> WorldView {
        if self.alive(e) {
            let d = self.get(e);
            self.put(e, EntityView { transform: at, moved: d.moved || d.transform != at, ..d })
        } else {
            self
        }
    }

    /// The world after every moved entity has had its position published.
    pub open spec fn publish_positions(self) -> WorldView {
        WorldView {
            slots: Seq::new(
                self.slots.len(),
                |i: int|
                    match self.slots[i] {
                        Some(d) => Some(d.published()),
                        None => None,
                    },
            ),
        }
    }
}

impl EntityView {
    /// The entity after its position has been published: a moved entity that has a
    /// position record gets the simulation's position written into it, and no entity
    /// counts as moved any longer.
    pub open spec fn published(self) -> EntityView {
        if self.moved {
            EntityView {
                moved: false,
                records: match self.records.pos {
                    Some(_) => RecordSetView {
                        pos: Some(ReplicatedPos(self.transform)),
                        ..self.records
                    },
                    None => self.records,
                },
                ..self
            }
        } else {
            self
        }
    }
}

/// Nothing made before `root` descends from it.
pub proof fn lemma_descendants_come_later(w: WorldView, i: int, root: int)
    requires
        w.descends(i, root),
    ensures
        root <= i < w.slots.len(),
        w.slots[i] is Some,
        w.slots[root] is Some,
    decreases i,
{
    if i != root {
        let p = w.slots[i]->0.parent->0;
        lemma_descendants_come_later(w, p.0 as int, root);
    }
}

/// Nothing in the slots up to `root` descends from it.
pub proof fn lemma_no_descendants_before(w: WorldView, root: int, upto: int)
    requires
        upto <= root,
    ensures
        w.descendants_before(root, upto) == 0,
    decreases upto,
{
    if upto > 0 {
        lemma_no_descendants_before(w, root, upto - 1);
        if w.descends(upto - 1, root) {
            lemma_descendants_come_later(w, upto - 1, root);
        }
    }
}

/// What an entity owns, its owner's owner owns too.
pub proof fn lemma_descends_transitive(w: WorldView, i: int, mid: int, root: int)
    requires
        w.descends(i, mid),
        w.descends(mid, root),
    ensures
        w.descends(i, root),
    decreases i,
{
    if i != mid {
        let p = w.slots[i]->0.parent->0;
        lemma_descends_transitive(w, p.0 as int, mid, root);
    }
}

/// In a world that came from an earlier one by removing entities, and in which no
/// entity is without its owner, an entity descends from another exactly if it is
/// alive and did so before.
pub proof fn lemma_descends_after_pruning(w: WorldView, earlier: WorldView, i: int, root: int)
    requires
        w.wf(),
        w.pruned_from(earlier),
    ensures
        w.descends(i, root) <==> (earlier.descends(i, root) && 0 <= i < w.slots.len()
            && w.slots[i] is Some),
    decreases i,
{
    if 0 <= i < w.slots.len() && w.slots[i] is Some && i != root {
        assert(w.slots[i] == earlier.slots[i]);
        if let Some(p) = w.slots[i]->0.parent {
            if p.0 < i {
                assert(w.slots[p.0 as int] is Some);
                lemma_descends_after_pruning(w, earlier, p.0 as int, root);
            }
        }
    }
}

/// The mathematical value of one slot of the arena.
pub open spec fn slot_view(slot: Option<EntityData>) -> Option<EntityView> {
    match slot {
        Some(d) => Some(d@),
        None => None,
    }
}

/// The arena of entities.
pub struct World {
    slots: Vec<Option<EntityData>>,
}

impl View for World {
    type V = WorldView;

    closed spec fn view(&self) -> WorldView {
        WorldView {
            slots: Seq::new(self.slots@.len(), |i: int| slot_view(self.slots@[i])),
        }
    }
}

impl World {
    /// The invariant of the arena.
    pub open spec fn wf(&self) -> bool {
        self@.wf()
    }

    /// A world without entities.
    pub fn new() -> (w: World)
        ensures
            w@ == WorldView::empty(),
            w.wf(),
    {
        let w = World { slots: Vec::new() };
        assert(w@.slots =~= Seq::empty());
        w
    }

    /// How many handles were given out so far.
    pub fn len(&self) -> (n: usize)
        ensures
            n == self@.slots.len(),
    {
        self.slots.len()
    }

    /// Whether the handle names a live entity.
    pub fn is_alive(&self, e: Entity) -> (b: bool)
        ensures
            b == self@.alive(e),
    {
        e.0 < self.slots.len() && self.slots[e.0].is_some()
    }

    /// Makes an entity that nothing owns. Its position counts as moved, so that it is
    /// published with the next tick.
    pub fn spawn(&mut self, transform: Vec3, records: RecordSet) -> (e: Entity)
        requires
            old(self).wf(),
        ensures
            final(self).wf(),
            e.0 == old(self)@.slots.len(),
            final(self)@ == old(self)@.spawn(
                EntityView { parent: None, transform, moved: true, records: records@ },
            ),
    {
        let e = Entity(self.slots.len());
        self.slots.push(Some(EntityData { parent: None, transform, moved: true, records }));
        assert(self@.slots =~= old(self)@.spawn(
            EntityView { parent: None, transform, moved: true, records: records@ },
        ).slots);
        e
    }

    /// Makes an entity owned by `parent`. Nothing is made when `parent` is not alive.
    pub fn spawn_child(
        &mut self,
        parent: Entity,
        transform: Vec3,
        records: RecordSet,
    ) -> (r: Option<Entity>)
        requires
            old(self).wf(),
        ensures
            final(self).wf(),
            r is Some <==> old(self)@.alive(parent),
            r is None ==> final(self)@ == old(self)@,
            r matches Some(e) ==> e.0 == old(self)@.slots.len() && final(self)@ == old(
                self,
            )@.spawn(
                EntityView { parent: Some(parent), transform, moved: true, records: records@ },
            ),
    {
        if !self.is_alive(parent) {
            return None;
        }
        let e = Entity(self.slots.len());
        self.slots.push(
            Some(EntityData { parent: Some(parent), transform, moved: true, records }),
        );
        assert(self@.slots =~= old(self)@.spawn(
            EntityView { parent: Some(parent), transform, moved: true, records: records@ },
        ).slots);
        Some(e)
    }

    /// The live entity under a handle.
    pub fn get(&self, e: Entity) -> (r: Option<&EntityData>)
        ensures
            r is Some <==> self@.alive(e),
            r matches Some(d) ==> d@ == self@.get(e),
    {
        if e.0 < self.slots.len() {
            self.slots[e.0].as_ref()
        } else {
            None
        }
    }

    /// Puts a record on an entity, replacing the one of its kind. Says whether the
    /// entity was alive; nothing changes when it was not.
    pub fn insert_record(&mut self, e: Entity, record: Record) -> (ok: bool)
        requires
            old(self).wf(),
        ensures
            final(self).wf(),
            ok == old(self)@.alive(e),
            final(self)@ == old(self)@.with_record(e, record@),
    {
        if !self.is_alive(e) {
            return false;
        }
        match &mut self.slots[e.0] {
            Some(d) => {
                d.records.insert(record);
            },
            None => {},
        }
        assert(self@.slots =~= old(self)@.with_record(e, record@).slots);
        true
    }

    /// Takes the record of a kind off an entity. Says whether the entity was alive;
    /// nothing changes when it was not.
    pub fn remove_record(&mut self, e: Entity, kind: RecordKind) -> (ok: bool)
        requires
            old(self).wf(),
        ensures
            final(self).wf(),
            ok == old(self)@.alive(e),
            final(self)@ == old(self)@.without_record(e, kind),
    {
        if !self.is_alive(e) {
            return false;
        }
        match &mut self.slots[e.0] {
            Some(d) => {
                d.records.remove(kind);
            },
            None => {},
        }
        assert(self@.slots =~= old(self)@.without_record(e, kind).slots);
        true
    }

    /// Records where the simulation has put an entity. Says whether the entity was
    /// alive; nothing changes when it was not.
    pub fn set_transform(&mut self, e: Entity, at: Vec3) -> (ok: bool)
        requires
            old(self).wf(),
        ensures
            final(self).wf(),
            ok == old(self)@.alive(e),
            final(self)@ == old(self)@.moved_to(e, at),
    {
        if !self.is_alive(e) {
            return false;
        }
        match &mut self.slots[e.0] {
            Some(d) => {
                if !d.transform.same(&at) {
                    d.moved = true;
                }
                d.transform = at;
            },
            None => {},
        }
        assert(self@.slots =~= old(self)@.moved_to(e, at).slots);
        true
    }

    /// Writes the simulation's position of every moved entity into its position
    /// record, and marks every entity as not moved.
    pub fn update_player_pos(&mut self)
        requires
            old(self).wf(),
        ensures
            final(self).wf(),
            final(self)@ == old(self)@.publish_positions(),
    {
        let n = self.slots.len();
        let mut i: usize = 0;
        while i < n
            invariant
                i <= n,
                n == self.slots@.len(),
                n == old(self).slots@.len(),
                forall|j: int|
                    0 <= j < i ==> slot_view(#[trigger] self.slots@[j]) == (match slot_view(
                        old(self).slots@[j],
                    ) {
                        Some(d) => Some(d.published()),
                        None => None,
                    }),
                forall|j: int| i <= j < n ==> #[trigger] self.slots@[j] == old(self).slots@[j],
            decreases n - i,
        {
            match &mut self.slots[i] {
                Some(d) => {
                    if d.moved {
                        if d.records.pos.is_some() {
                            d.records.pos = Some(ReplicatedPos(d.transform));
                        }
                        d.moved = false;
                    }
                },
                None => {},
            }
            i = i + 1;
        }
        proof {
            let w = old(self)@;
            assert forall|j: int| 0 <= j < n implies #[trigger] self@.slots[j]
                == w.publish_positions().slots[j] by {
                assert(slot_view(self.slots@[j]) == (match slot_view(old(self).slots@[j]) {
                    Some(d) => Some(d.published()),
                    None => None,
                }));
            }
            assert forall|j: int| 0 <= j < n implies match #[trigger] self@.slots[j] {
                Some(d) => match d.parent {
                    Some(p) => p.0 < j && self@.slots[p.0 as int] is Some,
                    None => true,
                },
                None => true,
            } by {
                assert(w.slots[j] is Some <==> self@.slots[j] is Some);
                if let Some(d) = w.slots[j] {
                    if let Some(p) = d.parent {
                        assert(w.slots[p.0 as int] is Some);
                        assert(self@.slots[p.0 as int] == w.publish_positions().slots[p.0 as int]);
                    }
                }
            }
        }
        assert(self@.slots =~= old(self)@.publish_positions().slots);
    }

    /// Removes an entity together with everything it owns, and says how many
    /// entities went. A handle that names nothing alive removes nothing.
    pub fn despawn_recursive(&mut self, root: Entity) -> (removed: usize)
        requires
            old(self).wf(),
        ensures
            final(self).wf(),
            final(self)@ == old(self)@.despawn(root),
            removed == old(self)@.descendants(root),
            removed == 0 <==> !old(self)@.alive(root),
    {
        let n = self.slots.len();
        let mut removed: usize = 0;
        if root.0 >= n {
            proof {
                assert forall|i: int| !old(self)@.descends(i, root.0 as int) by {
                    if old(self)@.descends(i, root.0 as int) {
                        lemma_descendants_come_later(old(self)@, i, root.0 as int);
                    }
                }
                assert(self@.slots =~= old(self)@.despawn(root).slots);
                lemma_no_descendants_before(old(self)@, root.0 as int, n as int);
            }
            return 0;
        }
        proof {
            lemma_no_descendants_before(old(self)@, root.0 as int, root.0 as int);
        }
        let mut i: usize = root.0;
        while i < n
            invariant
                root.0 <= i <= n,
                n == self.slots@.len(),
                n == old(self).slots@.len(),
                old(self).wf(),
                removed <= i - root.0,
                removed == old(self)@.descendants_before(root.0 as int, i as int),
                removed == 0 <==> (i == root.0 || !old(self)@.alive(root)),
                forall|j: int|
                    0 <= j < n ==> #[trigger] self.slots@[j] == (if root.0 <= j < i && old(
                        self,
                    )@.descends(j, root.0 as int) {
                        None
                    } else {
                        old(self).slots@[j]
                    }),
            decreases n - i,
        {
            let gone = match &self.slots[i] {
                Some(d) => i == root.0 || match d.parent {
                    Some(p) => p.0 < i && self.slots[p.0].is_none(),
                    None => false,
                },
                None => false,
            };
            proof {
                let w = old(self)@;
                assert(self.slots@[i as int] == old(self).slots@[i as int]);
                assert(w.slots[i as int] is Some <==> old(self).slots@[i as int] is Some);
                if w.slots[i as int] is Some && i != root.0 {
                    if let Some(p) = w.slots[i as int]->0.parent {
                        assert(p.0 < i);
                        assert(w.slots[p.0 as int] is Some);
                        assert(old(self).slots@[p.0 as int] is Some);
                        if w.descends(p.0 as int, root.0 as int) {
                            lemma_descendants_come_later(w, p.0 as int, root.0 as int);
                        }
                        assert(self.slots@[p.0 as int] is None <==> w.descends(
                            p.0 as int,
                            root.0 as int,
                        ));
                    }
                }
                assert(gone == w.descends(i as int, root.0 as int));
                if gone {
                    lemma_descendants_come_later(w, i as int, root.0 as int);
                }
            }
            if gone {
                self.slots.set(i, None);
                removed = removed + 1;
            }
            i = i + 1;
        }
        proof {
            let w = old(self)@;
            assert forall|j: int| 0 <= j < n implies #[trigger] self@.slots[j] == w.despawn(
                root,
            ).slots[j] by {
                assert(self.slots@[j] == (if root.0 <= j < n && w.descends(j, root.0 as int) {
                    None
                } else {
                    old(self).slots@[j]
                }));
                if w.descends(j, root.0 as int) {
                    lemma_descendants_come_later(w, j, root.0 as int);
                }
            }
            assert(self@.slots =~= w.despawn(root).slots);
            lemma_despawn_keeps_wf(w, root);
        }
        removed
    }
}

/// Removing an entity with everything it owns leaves no entity without its owner.
pub proof fn lemma_despawn_keeps_wf(w: WorldView, root: Entity)
    requires
        w.wf(),
    ensures
        w.despawn(root).wf(),
{
    let after = w.despawn(root);
    assert forall|i: int| 0 <= i < after.slots.len() implies match #[trigger] after.slots[i] {
        Some(d) => match d.parent {
            Some(p) => p.0 < i && after.slots[p.0 as int] is Some,
            None => true,
        },
        None => true,
    } by {
        if after.slots[i] is Some {
            assert(w.slots[i] is Some);
            assert(!w.descends(i, root.0 as int));
        }
    }
}

} // verus!
