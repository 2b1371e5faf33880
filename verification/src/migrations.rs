//! Ordered, idempotent schema migrations and the ledger that records which
//! of them have run.

use vstd::prelude::*;

verus! {

/// The stable identity of one migration. The declaration order is the order
/// they must run in: the re-added parent column depends on the legacy column
/// having been renamed out of the way first.
#[derive(PartialEq, Eq, Structural, Clone, Copy, Debug)]
pub enum MigrationId {
    /// Rename the legacy parent column on the transaction table to the
    /// child-transaction column.
    RenameParentToChild,
    /// Add the seen-in-mempool flag (default true) to the transaction table.
    AddSeenInMempool,
    /// Add the replaces column to the replacement table.
    AddReplaces,
    /// Re-add a parent-transaction column, now meaning the parent.
    AddParentTxid,
}

/// One ledger row: a migration that has run, and when.
#[derive(PartialEq, Eq, Structural, Clone, Copy, Debug)]
pub struct MigrationRow {
    /// Which migration ran.
    pub id: MigrationId,
    /// Seconds since the epoch when it ran.
    pub applied_at: u64,
}

/// Which schema changes are in effect. Fresh stores start with none.
#[derive(PartialEq, Eq, Structural, Clone, Copy, Debug)]
pub struct Schema {
    /// The legacy parent column has been renamed to the child column.
    pub child_txid_renamed: bool,
    /// The transaction table has the seen-in-mempool flag.
    pub has_seen_in_mempool: bool,
    /// The replacement table has the replaces column.
    pub has_replaces: bool,
    /// The transaction table has the new parent column.
    pub has_parent_txid: bool,
}

/// The schema before any migration has run.
pub open spec fn spec_initial_schema() -> Schema {
    Schema {
        child_txid_renamed: false,
        has_seen_in_mempool: false,
        has_replaces: false,
        has_parent_txid: false,
    }
}

/// Whether the ledger already holds `m`.
pub open spec fn spec_ledger_has(ledger: Seq<MigrationRow>, m: MigrationId) -> bool {
    exists|i: int| 0 <= i < ledger.len() && ledger[i].id == m
}

/// The schema after `m` has run.
pub open spec fn spec_migrated_schema(s: Schema, m: MigrationId) -> Schema {
    match m {
        MigrationId::RenameParentToChild => Schema { child_txid_renamed: true, ..s },
        MigrationId::AddSeenInMempool => Schema { has_seen_in_mempool: true, ..s },
        MigrationId::AddReplaces => Schema { has_replaces: true, ..s },
        MigrationId::AddParentTxid => Schema { has_parent_txid: true, ..s },
    }
}

/// One migration step: run `m` and record it, unless the ledger already
/// holds it. Unknown ledger entries are left alone.
pub open spec fn spec_migration_step(
    ledger: Seq<MigrationRow>,
    schema: Schema,
    m: MigrationId,
    now: u64,
) -> (Seq<MigrationRow>, Schema) {
    if spec_ledger_has(ledger, m) {
        (ledger, schema)
    } else {
        (ledger.push(MigrationRow { id: m, applied_at: now }), spec_migrated_schema(schema, m))
    }
}

/// Running every known migration, in declaration order.
pub open spec fn spec_run_migrations(
    ledger: Seq<MigrationRow>,
    schema: Schema,
    now: u64,
) -> (Seq<MigrationRow>, Schema) {
    let s1 = spec_migration_step(ledger, schema, MigrationId::RenameParentToChild, now);
    let s2 = spec_migration_step(s1.0, s1.1, MigrationId::AddSeenInMempool, now);
    let s3 = spec_migration_step(s2.0, s2.1, MigrationId::AddReplaces, now);
    spec_migration_step(s3.0, s3.1, MigrationId::AddParentTxid, now)
}

/// A step on a ledger that already holds its migration changes nothing, and
/// every step leaves the ledger holding its migration.
proof fn lemma_step_facts(ledger: Seq<MigrationRow>, schema: Schema, m: MigrationId, now: u64)
    ensures
        spec_ledger_has(spec_migration_step(ledger, schema, m, now).0, m),
        forall|k: MigrationId|
            spec_ledger_has(ledger, k) ==> spec_ledger_has(
                spec_migration_step(ledger, schema, m, now).0,
                k,
            ),
{
    let st = spec_migration_step(ledger, schema, m, now);
    if !spec_ledger_has(ledger, m) {
        assert(st.0[ledger.len() as int].id == m);
    }
    assert forall|k: MigrationId| spec_ledger_has(ledger, k) implies spec_ledger_has(
        st.0,
        k,
    ) by {
        let i = choose|i: int| 0 <= i < ledger.len() && ledger[i].id == k;
        assert(st.0[i].id == k);
    }
}

/// Running the migrations twice has the same effect as running them once:
/// after the first run every known migration is in the ledger, so every step
/// of the second run leaves the state alone.
pub proof fn lemma_run_migrations_idempotent(
    ledger: Seq<MigrationRow>,
    schema: Schema,
    now: u64,
    later: u64,
)
    ensures
        spec_run_migrations(
            spec_run_migrations(ledger, schema, now).0,
            spec_run_migrations(ledger, schema, now).1,
            later,
        ) == spec_run_migrations(ledger, schema, now),
{
    let s1 = spec_migration_step(ledger, schema, MigrationId::RenameParentToChild, now);
    let s2 = spec_migration_step(s1.0, s1.1, MigrationId::AddSeenInMempool, now);
    let s3 = spec_migration_step(s2.0, s2.1, MigrationId::AddReplaces, now);
    let s4 = spec_migration_step(s3.0, s3.1, MigrationId::AddParentTxid, now);
    lemma_step_facts(ledger, schema, MigrationId::RenameParentToChild, now);
    lemma_step_facts(s1.0, s1.1, MigrationId::AddSeenInMempool, now);
    lemma_step_facts(s2.0, s2.1, MigrationId::AddReplaces, now);
    lemma_step_facts(s3.0, s3.1, MigrationId::AddParentTxid, now);
    assert(spec_ledger_has(s4.0, MigrationId::RenameParentToChild));
    assert(spec_ledger_has(s4.0, MigrationId::AddSeenInMempool));
    assert(spec_ledger_has(s4.0, MigrationId::AddReplaces));
    assert(spec_ledger_has(s4.0, MigrationId::AddParentTxid));
}

/// Whether the ledger already records `m` as applied.
pub fn already_applied(ledger: &Vec<MigrationRow>, m: MigrationId) -> (r: bool)
    ensures
        r == spec_ledger_has(ledger@, m),
{
    let mut i: usize = 0;
    while i < ledger.len()
        invariant
            i <= ledger.len(),
            forall|j: int| 0 <= j < i ==> ledger@[j].id != m,
        decreases ledger.len() - i,
    {
        if ledger[i].id == m {
            return true;
        }
        i = i + 1;
    }
    false
}

/// Runs one migration if the ledger does not hold it yet, appending the
/// ledger row and updating the schema.
fn migration_step(ledger: &mut Vec<MigrationRow>, schema: &mut Schema, m: MigrationId, now: u64)
    ensures
        (final(ledger)@, *final(schema)) == spec_migration_step(old(ledger)@, *old(schema), m, now),
{
    if !already_applied(ledger, m) {
        ledger.push(MigrationRow { id: m, applied_at: now });
        *schema = match m {
            MigrationId::RenameParentToChild => Schema { child_txid_renamed: true, ..*schema },
            MigrationId::AddSeenInMempool => Schema { has_seen_in_mempool: true, ..*schema },
            MigrationId::AddReplaces => Schema { has_replaces: true, ..*schema },
            MigrationId::AddParentTxid => Schema { has_parent_txid: true, ..*schema },
        };
    }
}

/// Runs every known migration in order, skipping those the ledger already
/// holds. Idempotent: a second run changes nothing.
pub fn run_migrations(ledger: &mut Vec<MigrationRow>, schema: &mut Schema, now: u64)
    ensures
        (final(ledger)@, *final(schema)) == spec_run_migrations(old(ledger)@, *old(schema), now),
{
    migration_step(ledger, schema, MigrationId::RenameParentToChild, now);
    migration_step(ledger, schema, MigrationId::AddSeenInMempool, now);
    migration_step(ledger, schema, MigrationId::AddReplaces, now);
    migration_step(ledger, schema, MigrationId::AddParentTxid, now);
}

} // verus!
