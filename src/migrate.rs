//! Schema versioning: which migrations bring a store up to date.
use vstd::prelude::*;

verus! {

/// The schema version this library writes.
pub const CURRENT_VERSION: i32 = 3;

/// One migration, after which the store is stamped with the version it reaches.
#[derive(Debug, Clone, Copy, PartialEq, Eq, Structural)]
pub enum MigrationStep {
    /// Install the full current schema into an empty store.
    InstallSchema,
    /// Apply the forward migration to this version.
    Upgrade(i32),
}

/// The migrations for a store at version `current` (0: no schema yet), in order.
pub open spec fn plan_for(current: i32) -> Seq<MigrationStep> {
    if current == 0 {
        seq![MigrationStep::InstallSchema]
    } else if current < CURRENT_VERSION {
        Seq::new(
            (CURRENT_VERSION - current) as nat,
            |k: int| MigrationStep::Upgrade((current + 1 + k) as i32),
        )
    } else {
        Seq::empty()
    }
}

/// The version a step stamps.
pub open spec fn stamped(step: MigrationStep) -> i32 {
    match step {
        MigrationStep::InstallSchema => CURRENT_VERSION,
        MigrationStep::Upgrade(v) => v,
    }
}

/// The version a store at `current` has after its plan ran.
pub open spec fn version_after(current: i32) -> i32 {
    let p = plan_for(current);
    if p.len() == 0 {
        current
    } else {
        stamped(p.last())
    }
}

/// The migrations that bring a store at version `current` up to date.
pub fn migration_plan(current: i32) -> (r: Vec<MigrationStep>)
    ensures
        r@ == plan_for(current),
{
    let mut steps: Vec<MigrationStep> = Vec::new();
    if current == 0 {
        steps.push(MigrationStep::InstallSchema);
        assert(steps@ =~= plan_for(current));
        return steps;
    }
    if current < CURRENT_VERSION {
        let mut v = current + 1;
        while v <= CURRENT_VERSION
            invariant
                current < v <= CURRENT_VERSION + 1,
                current < CURRENT_VERSION,
                steps@ =~= Seq::new(
                    (v - current - 1) as nat,
                    |k: int| MigrationStep::Upgrade((current + 1 + k) as i32),
                ),
            decreases CURRENT_VERSION + 1 - v,
        {
            steps.push(MigrationStep::Upgrade(v));
            v = v + 1;
        }
    }
    assert(steps@ =~= plan_for(current));
    steps
}

/// Migrating brings any store at or below the current version to the current version, and
/// migrating again does nothing: the stamped versions and the schema stay as they are.
pub proof fn lemma_migrations_idempotent(current: i32)
    requires
        0 <= current <= CURRENT_VERSION,
    ensures
        version_after(current) == CURRENT_VERSION,
        plan_for(version_after(current)).len() == 0,
{
}

} // verus!
