//! The monster that lives in the world from the start.

use vstd::prelude::*;
use crate::geometry::Vec3;
use crate::records::{Appearance, Record, RecordSetView, ReplicationBundle, Tint};
use crate::world::{Entity, EntityView, World};

verus! {

/// Puts the monster into the world.
#[derive(Clone, Copy, Debug)]
pub struct EnemyPlugin;

/// The monster as it is made: a pink box called "Monster", ten units above the
/// origin.
pub open spec fn monster() -> EntityView {
    EntityView {
        parent: None,
        transform: Vec3 { x: 0, y: 10_000, z: 0 },
        moved: true,
        records: RecordSetView {
            name: Some("Monster"@),
            ..ReplicationBundle::spec_new(Tint::spec_pink(), Appearance::Box).spec_records()
        },
    }
}

/// Makes the monster, and returns its handle.
pub fn spawn_monster(world: &mut World) -> (entity: Entity)
    requires
        old(world).wf(),
    ensures
        final(world).wf(),
        entity.0 == old(world)@.slots.len(),
        final(world)@ == old(world)@.spawn(monster()),
{
    let bundle = ReplicationBundle::new(Tint::pink(), Appearance::Box);
    let mut records = bundle.records();
    records.insert(Record::Name("Monster".to_owned()));
    world.spawn(Vec3 { x: 0, y: 10_000, z: 0 }, records)
}

impl EnemyPlugin {
    /// Sets the plugin up on a world: the monster is made.
    pub fn build(world: &mut World) -> (entity: Entity)
        requires
            old(world).wf(),
        ensures
            final(world).wf(),
            entity.0 == old(world)@.slots.len(),
            final(world)@ == old(world)@.spawn(monster()),
    {
        spawn_monster(world)
    }
}

} // verus!
