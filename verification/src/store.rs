//! The persistent store model: the transaction table keyed by inputs-hash,
//! the replacement table, the append-only pool snapshots and mining-info
//! rows, and the migrations ledger.
//!
//! Every mutation is specified exactly over the mathematical view of the
//! tables, and every operation preserves the store invariant: keys are
//! unique, and no row is both mined and pruned.

use vstd::prelude::*;

use crate::bytes::{bytes_eq, copy_bytes};
use crate::digest::{inputs_digest, spec_inputs_digest, spec_txid};
use crate::digest::compute_txid;
use crate::encode::{encode_tx, encode_tx_base, spec_enc_tx};
use crate::migrations::{
    run_migrations, spec_initial_schema, spec_run_migrations, MigrationRow, Schema,
};
use crate::tx::{spec_is_coinbase, spec_prune_witnesses, Tx, TxInputView, TxView};

verus! {

/// The schema version written with ordinary mempool transaction rows.
pub const MEMPOOL_TRANSACTION_VERSION: u32 = 1;

/// The schema version written with replacement rows.
pub const RBF_TRANSACTION_VERSION: u32 = 1;

/// The schema version written with coinbase rows.
pub const COINBASE_TRANSACTION_VERSION: u32 = 0;

/// The schema version written with pool snapshot rows.
pub const MEMPOOL_STATE_VERSION: u32 = 1;

/// One row of the transaction table.
pub struct TxRow {
    /// The 32-byte inputs-hash: the primary key. Coinbase rows use the
    /// transaction id instead, since a coinbase spends nothing.
    pub inputs_hash: Vec<u8>,
    /// The current transaction id; it moves forward across fee bumps.
    pub tx_id: Vec<u8>,
    /// The consensus encoding of the transaction; witness data is stripped
    /// once the transaction is mined.
    pub tx_data: Vec<u8>,
    /// When the tracker first observed the transaction.
    pub found_at: u64,
    /// When the tracker observed it confirmed, if ever.
    pub mined_at: Option<u64>,
    /// When the tracker concluded the node dropped it unmined, if ever.
    pub pruned_at: Option<u64>,
    /// The id of a later transaction that spent one of this row's outputs
    /// while it was still unconfirmed.
    pub child_txid: Option<Vec<u8>>,
    /// The id of the live transaction this row spent an output of, when it
    /// was inserted as such a child.
    pub parent_txid: Option<Vec<u8>>,
    /// Whether a child has ever been recorded against this row.
    pub is_cpfp_parent: bool,
    /// False only for rows first seen already mined.
    pub seen_in_mempool: bool,
    /// The absolute fee in satoshis.
    pub absolute_fee: u64,
    /// The fee rate in satoshis per virtual byte.
    pub fee_rate: u64,
    /// The row schema version.
    pub version: u32,
}

/// Mathematical value of a [`TxRow`].
#[verifier::ext_equal]
pub ghost struct TxRowView {
    pub inputs_hash: Seq<u8>,
    pub tx_id: Seq<u8>,
    pub tx_data: Seq<u8>,
    pub found_at: u64,
    pub mined_at: Option<u64>,
    pub pruned_at: Option<u64>,
    pub child_txid: Option<Seq<u8>>,
    pub parent_txid: Option<Seq<u8>>,
    pub is_cpfp_parent: bool,
    pub seen_in_mempool: bool,
    pub absolute_fee: u64,
    pub fee_rate: u64,
    pub version: u32,
}

impl View for TxRow {
    type V = TxRowView;

    open spec fn view(&self) -> TxRowView {
        TxRowView {
            inputs_hash: self.inputs_hash@,
            tx_id: self.tx_id@,
            tx_data: self.tx_data@,
            found_at: self.found_at,
            mined_at: self.mined_at,
            pruned_at: self.pruned_at,
            child_txid: match self.child_txid {
                Some(ref v) => Some(v@),
                None => None,
            },
            parent_txid: match self.parent_txid {
                Some(ref v) => Some(v@),
                None => None,
            },
            is_cpfp_parent: self.is_cpfp_parent,
            seen_in_mempool: self.seen_in_mempool,
            absolute_fee: self.absolute_fee,
            fee_rate: self.fee_rate,
            version: self.version,
        }
    }
}

/// One row of the replacement table, keyed by inputs-hash: only the latest
/// replacement round per key is retained.
pub struct RbfRow {
    /// The 32-byte inputs-hash shared by the replaced and replacing
    /// transactions.
    pub inputs_hash: Vec<u8>,
    /// When the replacement was recorded.
    pub created_at: u64,
    /// The absolute fee of the replacing transaction, in satoshis.
    pub fee_total: u64,
    /// The id of the replacing transaction.
    pub replaces: Vec<u8>,
    /// The row schema version.
    pub version: u32,
}

/// Mathematical value of an [`RbfRow`].
#[verifier::ext_equal]
pub ghost struct RbfRowView {
    pub inputs_hash: Seq<u8>,
    pub created_at: u64,
    pub fee_total: u64,
    pub replaces: Seq<u8>,
    pub version: u32,
}

impl View for RbfRow {
    type V = RbfRowView;

    open spec fn view(&self) -> RbfRowView {
        RbfRowView {
            inputs_hash: self.inputs_hash@,
            created_at: self.created_at,
            fee_total: self.fee_total,
            replaces: self.replaces@,
            version: self.version,
        }
    }
}

/// One append-only pool snapshot row.
pub struct SnapshotRow {
    /// When the snapshot was taken.
    pub created_at: u64,
    /// Bytes held in the pool.
    pub size: u64,
    /// Transactions held in the pool.
    pub tx_count: u64,
    /// The tip height at the time.
    pub block_height: u64,
    /// The tip hash at the time, consensus-encoded.
    pub block_hash: Vec<u8>,
    /// The row schema version.
    pub version: u32,
}

/// Mathematical value of a [`SnapshotRow`].
#[verifier::ext_equal]
pub ghost struct SnapshotRowView {
    pub created_at: u64,
    pub size: u64,
    pub tx_count: u64,
    pub block_height: u64,
    pub block_hash: Seq<u8>,
    pub version: u32,
}

impl View for SnapshotRow {
    type V = SnapshotRowView;

    open spec fn view(&self) -> SnapshotRowView {
        SnapshotRowView {
            created_at: self.created_at,
            size: self.size,
            tx_count: self.tx_count,
            block_height: self.block_height,
            block_hash: self.block_hash@,
            version: self.version,
        }
    }
}

/// One append-only mining-info row: an opaque document, stored verbatim.
pub struct MiningInfoRow {
    /// When the document was fetched.
    pub created_at: u64,
    /// The hash-rate-distribution document.
    pub hash_rate_distribution: String,
}

/// Mathematical value of a [`MiningInfoRow`].
#[verifier::ext_equal]
pub ghost struct MiningInfoRowView {
    pub created_at: u64,
    pub hash_rate_distribution: Seq<char>,
}

impl View for MiningInfoRow {
    type V = MiningInfoRowView;

    open spec fn view(&self) -> MiningInfoRowView {
        MiningInfoRowView {
            created_at: self.created_at,
            hash_rate_distribution: self.hash_rate_distribution@,
        }
    }
}

/// The store: every table the tracker persists.
pub struct Store {
    /// The transaction table, keyed by inputs-hash.
    pub txs: Vec<TxRow>,
    /// The replacement table, keyed by inputs-hash.
    pub rbf: Vec<RbfRow>,
    /// Pool snapshots, append-only.
    pub snapshots: Vec<SnapshotRow>,
    /// Mining-info rows, append-only.
    pub mining_info: Vec<MiningInfoRow>,
    /// The migrations ledger.
    pub ledger: Vec<MigrationRow>,
    /// Which schema changes are in effect.
    pub schema: Schema,
}

/// Mathematical value of the whole [`Store`].
#[verifier::ext_equal]
pub ghost struct StoreView {
    pub txs: Seq<TxRowView>,
    pub rbf: Seq<RbfRowView>,
    pub snapshots: Seq<SnapshotRowView>,
    pub mining_info: Seq<MiningInfoRowView>,
    pub ledger: Seq<MigrationRow>,
    pub schema: Schema,
}

impl View for Store {
    type V = StoreView;

    open spec fn view(&self) -> StoreView {
        StoreView {
            txs: self.txs@.map_values(|r: TxRow| r@),
            rbf: self.rbf@.map_values(|r: RbfRow| r@),
            snapshots: self.snapshots@.map_values(|r: SnapshotRow| r@),
            mining_info: self.mining_info@.map_values(|r: MiningInfoRow| r@),
            ledger: self.ledger@,
            schema: self.schema,
        }
    }
}

/// A row the tracker still believes live: neither mined nor pruned.
pub open spec fn spec_live(r: TxRowView) -> bool {
    r.mined_at is None && r.pruned_at is None
}

/// Whether the transaction table holds a row keyed by `h`.
pub open spec fn spec_has_tx(txs: Seq<TxRowView>, h: Seq<u8>) -> bool {
    exists|i: int| 0 <= i < txs.len() && txs[i].inputs_hash == h
}

/// Whether the replacement table holds a row keyed by `h`.
pub open spec fn spec_has_rbf(rbf: Seq<RbfRowView>, h: Seq<u8>) -> bool {
    exists|i: int| 0 <= i < rbf.len() && rbf[i].inputs_hash == h
}

/// Whether some live row carries the transaction id `id`.
pub open spec fn spec_has_live_txid(txs: Seq<TxRowView>, id: Seq<u8>) -> bool {
    exists|i: int| 0 <= i < txs.len() && spec_live(txs[i]) && txs[i].tx_id == id
}

/// Whether `t` spends an output of the transaction with id `id`.
pub open spec fn spec_spends(t: TxView, id: Seq<u8>) -> bool {
    exists|j: int| 0 <= j < t.inputs.len() && (#[trigger] t.inputs[j]).previous_output.txid == id
}

/// Distinct transaction rows never share an inputs-hash.
pub open spec fn spec_tx_keys_unique(txs: Seq<TxRowView>) -> bool {
    forall|i: int, j: int|
        0 <= i < j < txs.len() ==> (#[trigger] txs[i]).inputs_hash != (
        #[trigger] txs[j]).inputs_hash
}

/// No transaction row is both mined and pruned.
pub open spec fn spec_no_mined_and_pruned(txs: Seq<TxRowView>) -> bool {
    forall|i: int|
        0 <= i < txs.len() ==> !((#[trigger] txs[i]).mined_at is Some && txs[i].pruned_at is Some)
}

/// Distinct replacement rows never share an inputs-hash.
pub open spec fn spec_rbf_keys_unique(rbf: Seq<RbfRowView>) -> bool {
    forall|i: int, j: int|
        0 <= i < j < rbf.len() ==> (#[trigger] rbf[i]).inputs_hash != (
        #[trigger] rbf[j]).inputs_hash
}

/// The store invariant: transaction and replacement keys are unique, and no
/// transaction row is both mined and pruned.
pub open spec fn spec_store_wf(s: StoreView) -> bool {
    &&& spec_tx_keys_unique(s.txs)
    &&& spec_no_mined_and_pruned(s.txs)
    &&& spec_rbf_keys_unique(s.rbf)
}

/// Replacing (or inserting) the row keyed like `row`: every row under the
/// same key is replaced by `row`; if none exists, `row` is appended.
pub open spec fn spec_upsert_tx(txs: Seq<TxRowView>, row: TxRowView) -> Seq<TxRowView> {
    if spec_has_tx(txs, row.inputs_hash) {
        txs.map_values(|r: TxRowView| if r.inputs_hash == row.inputs_hash { row } else { r })
    } else {
        txs.push(row)
    }
}

/// The same replacement-or-append on the replacement table.
pub open spec fn spec_upsert_rbf(rbf: Seq<RbfRowView>, row: RbfRowView) -> Seq<RbfRowView> {
    if spec_has_rbf(rbf, row.inputs_hash) {
        rbf.map_values(|r: RbfRowView| if r.inputs_hash == row.inputs_hash { row } else { r })
    } else {
        rbf.push(row)
    }
}

/// Marking the parents of `t`: every live row whose transaction id is spent
/// by `t` learns its child and becomes a CPFP parent. All other rows are
/// untouched.
pub open spec fn spec_cpfp_mark(txs: Seq<TxRowView>, t: TxView, child: Seq<u8>) -> Seq<TxRowView> {
    txs.map_values(
        |r: TxRowView|
            if spec_live(r) && spec_spends(t, r.tx_id) {
                TxRowView { child_txid: Some(child), is_cpfp_parent: true, ..r }
            } else {
                r
            },
    )
}

/// The id of the live parent spent by the earliest input of `t` that has
/// one, if any.
pub open spec fn spec_parent_of(txs: Seq<TxRowView>, inputs: Seq<TxInputView>) -> Option<Seq<u8>>
    decreases inputs.len(),
{
    if inputs.len() == 0 {
        None
    } else if spec_has_live_txid(txs, inputs[0].previous_output.txid) {
        Some(inputs[0].previous_output.txid)
    } else {
        spec_parent_of(txs, inputs.drop_first())
    }
}

/// The row that `insert_mempool_tx` writes, given the table before the
/// insert (for parent linkage) and the insert arguments.
pub open spec fn spec_new_mempool_row(
    txs0: Seq<TxRowView>,
    t: TxView,
    found_at: Option<u64>,
    fee: u64,
    fee_rate: u64,
    now: u64,
) -> TxRowView {
    TxRowView {
        inputs_hash: spec_inputs_digest(t),
        tx_id: spec_txid(t),
        tx_data: spec_enc_tx(t),
        found_at: match found_at {
            Some(at) => at,
            None => now,
        },
        mined_at: None,
        pruned_at: None,
        child_txid: None,
        parent_txid: spec_parent_of(txs0, t.inputs),
        is_cpfp_parent: false,
        seen_in_mempool: true,
        absolute_fee: fee,
        fee_rate: fee_rate,
        version: MEMPOOL_TRANSACTION_VERSION,
    }
}

/// True when the row is neither mined nor pruned.
fn row_is_live(r: &TxRow) -> (b: bool)
    ensures
        b == spec_live(r@),
{
    r.mined_at.is_none() && r.pruned_at.is_none()
}

/// True when some input of `tx` spends an output of the transaction with
/// id `id`.
fn tx_spends(tx: &Tx, id: &Vec<u8>) -> (b: bool)
    ensures
        b == spec_spends(tx@, id@),
{
    let mut j: usize = 0;
    while j < tx.inputs.len()
        invariant
            j <= tx.inputs.len(),
            forall|k: int| 0 <= k < j ==> (#[trigger] tx@.inputs[k]).previous_output.txid != id@,
        decreases tx.inputs.len() - j,
    {
        if bytes_eq(&tx.inputs[j].previous_output.txid, id) {
            proof {
                assert(tx@.inputs[j as int].previous_output.txid == id@);
            }
            return true;
        }
        j = j + 1;
    }
    false
}

/// The index of the transaction row keyed by `h`, if one exists.
fn find_tx_index(txs: &Vec<TxRow>, h: &Vec<u8>) -> (r: Option<usize>)
    ensures
        match r {
            Some(i) => i < txs@.len() && txs@[i as int]@.inputs_hash == h@,
            None => !spec_has_tx(txs@.map_values(|r: TxRow| r@), h@),
        },
{
    let mut i: usize = 0;
    while i < txs.len()
        invariant
            i <= txs.len(),
            forall|j: int| 0 <= j < i ==> (#[trigger] txs@[j])@.inputs_hash != h@,
        decreases txs.len() - i,
    {
        if bytes_eq(&txs[i].inputs_hash, h) {
            return Some(i);
        }
        i = i + 1;
    }
    proof {
        let tv = txs@.map_values(|r: TxRow| r@);
        assert(forall|j: int| 0 <= j < tv.len() ==> (#[trigger] tv[j]).inputs_hash != h@);
    }
    None
}

/// True when some live row carries the transaction id `id`.
fn has_live_txid(txs: &Vec<TxRow>, id: &Vec<u8>) -> (b: bool)
    ensures
        b == spec_has_live_txid(txs@.map_values(|r: TxRow| r@), id@),
{
    let ghost tv = txs@.map_values(|r: TxRow| r@);
    let mut i: usize = 0;
    while i < txs.len()
        invariant
            tv == txs@.map_values(|r: TxRow| r@),
            i <= txs.len(),
            forall|j: int| 0 <= j < i ==> !(spec_live(#[trigger] tv[j]) && tv[j].tx_id == id@),
        decreases txs.len() - i,
    {
        if row_is_live(&txs[i]) && bytes_eq(&txs[i].tx_id, id) {
            proof {
                assert(spec_live(tv[i as int]) && tv[i as int].tx_id == id@);
            }
            return true;
        }
        i = i + 1;
    }
    false
}

/// The live parent spent by the earliest input of `tx` that has one.
fn find_parent(txs: &Vec<TxRow>, tx: &Tx) -> (r: Option<Vec<u8>>)
    ensures
        match r {
            Some(p) => Some(p@) == spec_parent_of(
                txs@.map_values(|r: TxRow| r@),
                tx@.inputs,
            ),
            None => spec_parent_of(txs@.map_values(|r: TxRow| r@), tx@.inputs) is None,
        },
{
    let ghost tv = txs@.map_values(|r: TxRow| r@);
    let ghost ivs = tx@.inputs;
    proof {
        assert(ivs.subrange(0, ivs.len() as int) =~= ivs);
    }
    let mut i: usize = 0;
    while i < tx.inputs.len()
        invariant
            tv == txs@.map_values(|r: TxRow| r@),
            ivs == tx@.inputs,
            i <= tx.inputs.len(),
            spec_parent_of(tv, ivs) == spec_parent_of(tv, ivs.subrange(i as int, ivs.len() as int)),
        decreases tx.inputs.len() - i,
    {
        let ghost rest = ivs.subrange(i as int, ivs.len() as int);
        if has_live_txid(txs, &tx.inputs[i].previous_output.txid) {
            proof {
                assert(rest[0] == ivs[i as int]);
            }
            return Some(copy_bytes(&tx.inputs[i].previous_output.txid));
        }
        i = i + 1;
        proof {
            assert(rest[0] == ivs[i - 1]);
            assert(rest.drop_first() =~= ivs.subrange(i as int, ivs.len() as int));
        }
    }
    proof {
        assert(ivs.subrange(ivs.len() as int, ivs.len() as int).len() == 0);
    }
    None
}

/// The special coinbase row shape: keyed by the transaction id (a coinbase
/// spends nothing), found and mined at the same instant, zero fee.
pub open spec fn spec_coinbase_row(t: TxView, now: u64) -> TxRowView {
    TxRowView {
        inputs_hash: spec_txid(t),
        tx_id: spec_txid(t),
        tx_data: spec_enc_tx(t),
        found_at: now,
        mined_at: Some(now),
        pruned_at: None,
        child_txid: None,
        parent_txid: None,
        is_cpfp_parent: false,
        seen_in_mempool: true,
        absolute_fee: 0,
        fee_rate: 0,
        version: COINBASE_TRANSACTION_VERSION,
    }
}

/// A known row after its transaction was mined: the witness-stripped
/// encoding replaces the stored bytes, and the row can no longer count as
/// pruned.
pub open spec fn spec_mined_update(r: TxRowView, t: TxView, now: u64) -> TxRowView {
    TxRowView {
        mined_at: Some(now),
        pruned_at: None,
        tx_data: spec_enc_tx(spec_prune_witnesses(t)),
        seen_in_mempool: true,
        ..r
    }
}

/// The row written for a transaction first seen already mined: it never
/// flowed through the pool, and its fee was never resolved.
pub open spec fn spec_mined_row(t: TxView, now: u64) -> TxRowView {
    TxRowView {
        inputs_hash: spec_inputs_digest(t),
        tx_id: spec_txid(t),
        tx_data: spec_enc_tx(spec_prune_witnesses(t)),
        found_at: now,
        mined_at: Some(now),
        pruned_at: None,
        child_txid: None,
        parent_txid: None,
        is_cpfp_parent: false,
        seen_in_mempool: false,
        absolute_fee: 0,
        fee_rate: 0,
        version: MEMPOOL_TRANSACTION_VERSION,
    }
}

/// The transaction table after a mined observation: the row under the
/// inputs-hash of `t` is updated in place, or a not-seen-in-pool row is
/// appended.
pub open spec fn spec_record_mined(txs: Seq<TxRowView>, t: TxView, now: u64) -> Seq<TxRowView> {
    if spec_has_tx(txs, spec_inputs_digest(t)) {
        txs.map_values(
            |r: TxRowView|
                if r.inputs_hash == spec_inputs_digest(t) {
                    spec_mined_update(r, t, now)
                } else {
                    r
                },
        )
    } else {
        txs.push(spec_mined_row(t, now))
    }
}

/// The replacement row for one round: `replaces` holds the id of the
/// replacing transaction.
pub open spec fn spec_rbf_row(t: TxView, fee_total: u64, now: u64) -> RbfRowView {
    RbfRowView {
        inputs_hash: spec_inputs_digest(t),
        created_at: now,
        fee_total: fee_total,
        replaces: spec_txid(t),
        version: RBF_TRANSACTION_VERSION,
    }
}

/// The transaction table with the row under `h` carrying transaction id
/// `id`.
pub open spec fn spec_update_txid(txs: Seq<TxRowView>, h: Seq<u8>, id: Seq<u8>) -> Seq<
    TxRowView,
> {
    txs.map_values(
        |r: TxRowView| if r.inputs_hash == h { TxRowView { tx_id: id, ..r } } else { r },
    )
}

/// A table whose rows keep their keys and never hold both timestamps keeps
/// the invariant of the table it came from.
proof fn lemma_wf_txs_pointwise(txs0: Seq<TxRowView>, txs1: Seq<TxRowView>)
    requires
        spec_tx_keys_unique(txs0),
        txs1.len() == txs0.len(),
        forall|i: int|
            0 <= i < txs1.len() ==> (#[trigger] txs1[i]).inputs_hash == txs0[i].inputs_hash,
    ensures
        spec_tx_keys_unique(txs1),
{
    assert forall|i: int, j: int| 0 <= i < j < txs1.len() implies (
    #[trigger] txs1[i]).inputs_hash != (#[trigger] txs1[j]).inputs_hash by {
        assert(txs0[i].inputs_hash != txs0[j].inputs_hash);
    }
}

/// Upserting a row that is not both mined and pruned keeps the table
/// invariant.
proof fn lemma_upsert_wf_plain(txs0: Seq<TxRowView>, txs1: Seq<TxRowView>, row: TxRowView)
    requires
        spec_tx_keys_unique(txs0),
        spec_no_mined_and_pruned(txs0),
        txs1 == spec_upsert_tx(txs0, row),
        !(row.mined_at is Some && row.pruned_at is Some),
    ensures
        spec_tx_keys_unique(txs1),
        spec_no_mined_and_pruned(txs1),
{
    if spec_has_tx(txs0, row.inputs_hash) {
        assert forall|i: int, j: int| 0 <= i < j < txs1.len() implies (
        #[trigger] txs1[i]).inputs_hash != (#[trigger] txs1[j]).inputs_hash by {
            assert(txs0[i].inputs_hash != txs0[j].inputs_hash);
        }
    } else {
        assert forall|i: int, j: int| 0 <= i < j < txs1.len() implies (
        #[trigger] txs1[i]).inputs_hash != (#[trigger] txs1[j]).inputs_hash by {
            if j == txs1.len() - 1 {
                assert(txs1[i] == txs0[i]);
                assert(txs0[i].inputs_hash != row.inputs_hash);
            } else {
                assert(txs0[i].inputs_hash != txs0[j].inputs_hash);
            }
        }
    }
}

/// The index of the replacement row keyed by `h`, if one exists.
fn find_rbf_index(rbf: &Vec<RbfRow>, h: &Vec<u8>) -> (r: Option<usize>)
    ensures
        match r {
            Some(i) => i < rbf@.len() && rbf@[i as int]@.inputs_hash == h@,
            None => !spec_has_rbf(rbf@.map_values(|r: RbfRow| r@), h@),
        },
{
    let mut i: usize = 0;
    while i < rbf.len()
        invariant
            i <= rbf.len(),
            forall|j: int| 0 <= j < i ==> (#[trigger] rbf@[j])@.inputs_hash != h@,
        decreases rbf.len() - i,
    {
        if bytes_eq(&rbf[i].inputs_hash, h) {
            return Some(i);
        }
        i = i + 1;
    }
    proof {
        let rv = rbf@.map_values(|r: RbfRow| r@);
        assert(forall|j: int| 0 <= j < rv.len() ==> (#[trigger] rv[j]).inputs_hash != h@);
    }
    None
}

/// Writes `row` into the replacement table under its key: replaced if
/// present, appended if not. Keys must be unique beforehand.
fn upsert_rbf_row(rbf: &mut Vec<RbfRow>, row: RbfRow)
    requires
        spec_rbf_keys_unique(old(rbf)@.map_values(|r: RbfRow| r@)),
    ensures
        final(rbf)@.map_values(|r: RbfRow| r@) == spec_upsert_rbf(
            old(rbf)@.map_values(|r: RbfRow| r@),
            row@,
        ),
        spec_rbf_keys_unique(final(rbf)@.map_values(|r: RbfRow| r@)),
{
    let ghost rbf0 = old(rbf)@.map_values(|r: RbfRow| r@);
    let ghost rowv = row@;
    match find_rbf_index(rbf, &row.inputs_hash) {
        Some(at) => {
            rbf.set(at, row);
            proof {
                assert(spec_has_rbf(rbf0, rowv.inputs_hash)) by {
                    assert(rbf0[at as int].inputs_hash == rowv.inputs_hash);
                }
                let rbf1 = rbf@.map_values(|r: RbfRow| r@);
                assert forall|j: int| 0 <= j < rbf1.len() implies rbf1[j] == (
                if rbf0[j].inputs_hash == rowv.inputs_hash {
                    rowv
                } else {
                    rbf0[j]
                }) by {
                    if j != at {
                        assert(rbf0[j].inputs_hash != rbf0[at as int].inputs_hash);
                    }
                }
                assert(rbf1 =~= spec_upsert_rbf(rbf0, rowv));
                assert forall|i: int, j: int| 0 <= i < j < rbf1.len() implies (
                #[trigger] rbf1[i]).inputs_hash != (#[trigger] rbf1[j]).inputs_hash by {
                    assert(rbf0[i].inputs_hash != rbf0[j].inputs_hash);
                }
            }
        },
        None => {
            rbf.push(row);
            proof {
                let rbf1 = rbf@.map_values(|r: RbfRow| r@);
                assert(rbf1 =~= rbf0.push(rowv));
                assert forall|i: int, j: int| 0 <= i < j < rbf1.len() implies (
                #[trigger] rbf1[i]).inputs_hash != (#[trigger] rbf1[j]).inputs_hash by {
                    if j == rbf1.len() - 1 {
                        assert(rbf0[i].inputs_hash != rowv.inputs_hash);
                    } else {
                        assert(rbf0[i].inputs_hash != rbf0[j].inputs_hash);
                    }
                }
            }
        },
    }
}

/// Whether `x` occurs in a list of byte strings.
pub open spec fn spec_contains_bytes(list: Seq<Seq<u8>>, x: Seq<u8>) -> bool {
    exists|i: int| 0 <= i < list.len() && list[i] == x
}

/// The transaction ids of the live rows, in table order.
pub open spec fn spec_live_txids(txs: Seq<TxRowView>) -> Seq<Seq<u8>>
    decreases txs.len(),
{
    if txs.len() == 0 {
        Seq::empty()
    } else {
        spec_live_txids(txs.drop_last()) + (if spec_live(txs.last()) {
            seq![txs.last().tx_id]
        } else {
            Seq::empty()
        })
    }
}

/// The transaction ids of the live rows that do not occur in `up`, in
/// table order.
pub open spec fn spec_stale_txids(txs: Seq<TxRowView>, up: Seq<Seq<u8>>) -> Seq<Seq<u8>>
    decreases txs.len(),
{
    if txs.len() == 0 {
        Seq::empty()
    } else {
        spec_stale_txids(txs.drop_last(), up) + (if spec_live(txs.last()) && !spec_contains_bytes(
            up,
            txs.last().tx_id,
        ) {
            seq![txs.last().tx_id]
        } else {
            Seq::empty()
        })
    }
}

/// The table with every live row whose id occurs in `ids` marked pruned at
/// `now`. Mined rows are never touched: a mined transaction was not pruned.
pub open spec fn spec_mark_pruned(txs: Seq<TxRowView>, ids: Seq<Seq<u8>>, now: u64) -> Seq<
    TxRowView,
> {
    txs.map_values(
        |r: TxRowView|
            if spec_live(r) && spec_contains_bytes(ids, r.tx_id) {
                TxRowView { pruned_at: Some(now), ..r }
            } else {
                r
            },
    )
}

/// The table with every live row removed: what survives a restart.
pub open spec fn spec_remove_stale(txs: Seq<TxRowView>) -> Seq<TxRowView>
    decreases txs.len(),
{
    if txs.len() == 0 {
        Seq::empty()
    } else {
        spec_remove_stale(txs.drop_last()) + (if spec_live(txs.last()) {
            Seq::empty()
        } else {
            seq![txs.last()]
        })
    }
}

/// The earliest row carrying transaction id `id`, if any.
pub open spec fn spec_first_by_txid(txs: Seq<TxRowView>, id: Seq<u8>) -> Option<TxRowView>
    decreases txs.len(),
{
    if txs.len() == 0 {
        None
    } else if txs[0].tx_id == id {
        Some(txs[0])
    } else {
        spec_first_by_txid(txs.drop_first(), id)
    }
}

/// Whether some replacement row records `id` as the replacing transaction.
pub open spec fn spec_rbf_replaces(rbf: Seq<RbfRowView>, id: Seq<u8>) -> bool {
    exists|i: int| 0 <= i < rbf.len() && rbf[i].replaces == id
}

/// Removing the live rows keeps keys unique, keeps the timestamp
/// discipline, leaves no live row, and introduces no key that was absent.
proof fn lemma_remove_stale_wf(txs: Seq<TxRowView>)
    requires
        spec_tx_keys_unique(txs),
        spec_no_mined_and_pruned(txs),
    ensures
        spec_tx_keys_unique(spec_remove_stale(txs)),
        spec_no_mined_and_pruned(spec_remove_stale(txs)),
        forall|i: int| 0 <= i < spec_remove_stale(txs).len() ==> !spec_live(
            #[trigger] spec_remove_stale(txs)[i],
        ),
        forall|h: Seq<u8>| spec_has_tx(spec_remove_stale(txs), h) ==> spec_has_tx(txs, h),
    decreases txs.len(),
{
    if txs.len() > 0 {
        let dl = txs.drop_last();
        assert(spec_tx_keys_unique(dl));
        assert(spec_no_mined_and_pruned(dl));
        lemma_remove_stale_wf(dl);
        let rs = spec_remove_stale(txs);
        let rsd = spec_remove_stale(dl);
        assert forall|h: Seq<u8>| spec_has_tx(rs, h) implies spec_has_tx(txs, h) by {
            let i = choose|i: int| 0 <= i < rs.len() && rs[i].inputs_hash == h;
            if i < rsd.len() {
                assert(rs[i] == rsd[i]);
                assert(spec_has_tx(rsd, h)) by {
                    assert(rsd[i].inputs_hash == h);
                }
                assert(spec_has_tx(dl, h));
                let j = choose|j: int| 0 <= j < dl.len() && dl[j].inputs_hash == h;
                assert(dl[j] == txs[j]);
                assert(txs[j].inputs_hash == h);
            } else {
                assert(rs[i] == txs.last());
                assert(txs[txs.len() - 1].inputs_hash == h);
            }
        }
        if !spec_live(txs.last()) {
            assert(rs == rsd + seq![txs.last()]);
            assert forall|i: int, j: int| 0 <= i < j < rs.len() implies (
            #[trigger] rs[i]).inputs_hash != (#[trigger] rs[j]).inputs_hash by {
                if j == rs.len() - 1 {
                    assert(rs[i] == rsd[i]);
                    assert(rs[j] == txs.last());
                    if rs[i].inputs_hash == txs.last().inputs_hash {
                        assert(spec_has_tx(rsd, rs[i].inputs_hash)) by {
                            assert(rsd[i].inputs_hash == rs[i].inputs_hash);
                        }
                        assert(spec_has_tx(dl, rs[i].inputs_hash));
                        let k = choose|k: int|
                            0 <= k < dl.len() && dl[k].inputs_hash == rs[i].inputs_hash;
                        assert(dl[k] == txs[k]);
                        assert(k < txs.len() - 1);
                        assert(txs[k].inputs_hash != txs[txs.len() - 1].inputs_hash);
                        assert(false);
                    }
                } else {
                    assert(rs[i] == rsd[i] && rs[j] == rsd[j]);
                }
            }
        } else {
            assert(rs =~= rsd);
        }
    }
}

/// Whether `x` occurs in `list`.
fn list_contains(list: &Vec<Vec<u8>>, x: &Vec<u8>) -> (b: bool)
    ensures
        b == spec_contains_bytes(list@.map_values(|v: Vec<u8>| v@), x@),
{
    let ghost lv = list@.map_values(|v: Vec<u8>| v@);
    let mut i: usize = 0;
    while i < list.len()
        invariant
            lv == list@.map_values(|v: Vec<u8>| v@),
            i <= list.len(),
            forall|j: int| 0 <= j < i ==> #[trigger] lv[j] != x@,
        decreases list.len() - i,
    {
        if bytes_eq(&list[i], x) {
            proof {
                assert(lv[i as int] == x@);
            }
            return true;
        }
        i = i + 1;
    }
    false
}

/// Marks every live row whose transaction id is spent by `tx`: it learns
/// `child` as its child and becomes a CPFP parent. No other row changes.
fn mark_cpfp_parents(txs: &mut Vec<TxRow>, tx: &Tx, child: &Vec<u8>)
    ensures
        final(txs)@.map_values(|r: TxRow| r@) == spec_cpfp_mark(
            old(txs)@.map_values(|r: TxRow| r@),
            tx@,
            child@,
        ),
{
    let ghost txs0 = old(txs)@.map_values(|r: TxRow| r@);
    let ghost marked = spec_cpfp_mark(txs0, tx@, child@);
    let n = txs.len();
    let mut i: usize = 0;
    while i < n
        invariant
            n == txs.len(),
            i <= n,
            txs0 == old(txs)@.map_values(|r: TxRow| r@),
            txs0.len() == n,
            marked == spec_cpfp_mark(txs0, tx@, child@),
            marked.len() == n,
            forall|j: int| i <= j < n ==> txs@[j] == old(txs)@[j],
            forall|j: int| 0 <= j < i ==> #[trigger] txs@[j]@ == marked[j],
        decreases n - i,
    {
        proof {
            assert(old(txs)@[i as int]@ == txs0[i as int]);
            assert(marked[i as int] == (if spec_live(txs0[i as int]) && spec_spends(
                tx@,
                txs0[i as int].tx_id,
            ) {
                TxRowView {
                    child_txid: Some(child@),
                    is_cpfp_parent: true,
                    ..txs0[i as int]
                }
            } else {
                txs0[i as int]
            }));
        }
        if row_is_live(&txs[i]) && tx_spends(tx, &txs[i].tx_id) {
            let c = copy_bytes(child);
            let row = &mut txs[i];
            row.child_txid = Some(c);
            row.is_cpfp_parent = true;
            proof {
                assert(txs@[i as int]@ =~= marked[i as int]);
            }
        }
        i = i + 1;
    }
    proof {
        assert(txs@.map_values(|r: TxRow| r@) =~= marked);
    }
}

/// Writes `row` under its key: replaces the row holding it, or appends.
/// Keys must be unique beforehand, so that replacing the one match is the
/// same as replacing every match.
fn upsert_tx_row(txs: &mut Vec<TxRow>, row: TxRow)
    requires
        spec_tx_keys_unique(old(txs)@.map_values(|r: TxRow| r@)),
    ensures
        final(txs)@.map_values(|r: TxRow| r@) == spec_upsert_tx(
            old(txs)@.map_values(|r: TxRow| r@),
            row@,
        ),
{
    let ghost txs0 = old(txs)@.map_values(|r: TxRow| r@);
    let ghost rowv = row@;
    match find_tx_index(txs, &row.inputs_hash) {
        Some(at) => {
            txs.set(at, row);
            proof {
                assert(spec_has_tx(txs0, rowv.inputs_hash)) by {
                    assert(txs0[at as int].inputs_hash == rowv.inputs_hash);
                }
                let txs1 = txs@.map_values(|r: TxRow| r@);
                assert forall|j: int| 0 <= j < txs1.len() implies txs1[j] == (
                if txs0[j].inputs_hash == rowv.inputs_hash {
                    rowv
                } else {
                    txs0[j]
                }) by {
                    if j != at {
                        assert(txs0[j].inputs_hash != txs0[at as int].inputs_hash);
                    }
                }
                assert(txs1 =~= spec_upsert_tx(txs0, rowv));
            }
        },
        None => {
            txs.push(row);
            proof {
                assert(txs@.map_values(|r: TxRow| r@) =~= txs0.push(rowv));
            }
        },
    }
}

impl Store {
    /// The invariant every operation preserves.
    pub open spec fn wf(&self) -> bool {
        spec_store_wf(self@)
    }

    /// A fresh, empty store with the initial schema.
    pub fn new() -> (s: Store)
        ensures
            s.wf(),
            s@.txs.len() == 0,
            s@.rbf.len() == 0,
            s@.snapshots.len() == 0,
            s@.mining_info.len() == 0,
            s@.ledger.len() == 0,
            s@.schema == spec_initial_schema(),
    {
        Store {
            txs: Vec::new(),
            rbf: Vec::new(),
            snapshots: Vec::new(),
            mining_info: Vec::new(),
            ledger: Vec::new(),
            schema: Schema {
                child_txid_renamed: false,
                has_seen_in_mempool: false,
                has_replaces: false,
                has_parent_txid: false,
            },
        }
    }

    /// Whether a row for the inputs-hash of `tx` exists.
    pub fn tx_exists(&self, tx: &Tx) -> (r: bool)
        ensures
            r == spec_has_tx(self@.txs, spec_inputs_digest(tx@)),
    {
        let h = inputs_digest(tx);
        match find_tx_index(&self.txs, &h) {
            Some(i) => {
                proof {
                    assert(self@.txs[i as int].inputs_hash == spec_inputs_digest(tx@));
                }
                true
            },
            None => false,
        }
    }

    /// Records a transaction newly seen in the pool.
    ///
    /// First, every live row whose transaction id is spent by `tx` is marked
    /// as a CPFP parent with `tx` as its child. Then the row for the
    /// inputs-hash of `tx` is written: replaced if present, appended if not.
    /// `found_at` falls back to `now` when the caller has no better time.
    #[verifier::rlimit(50)]
    pub fn insert_mempool_tx(
        &mut self,
        tx: &Tx,
        found_at: Option<u64>,
        fee: u64,
        fee_rate: u64,
        now: u64,
    )
        requires
            old(self).wf(),
        ensures
            final(self).wf(),
            final(self)@.txs == spec_upsert_tx(
                spec_cpfp_mark(old(self)@.txs, tx@, spec_txid(tx@)),
                spec_new_mempool_row(old(self)@.txs, tx@, found_at, fee, fee_rate, now),
            ),
            final(self)@.rbf == old(self)@.rbf,
            final(self)@.snapshots == old(self)@.snapshots,
            final(self)@.mining_info == old(self)@.mining_info,
            final(self)@.ledger == old(self)@.ledger,
            final(self)@.schema == old(self)@.schema,
    {
        let ghost txs0 = old(self)@.txs;
        let h = inputs_digest(tx);
        let txid = compute_txid(tx);
        let parent = find_parent(&self.txs, tx);
        let ghost marked = spec_cpfp_mark(txs0, tx@, spec_txid(tx@));

        // Mark every live parent this transaction spends from.
        mark_cpfp_parents(&mut self.txs, tx, &txid);

        // Write the row itself: replace under its key, or append.
        let tx_data = encode_tx(tx);
        let row = TxRow {
            inputs_hash: h,
            tx_id: txid,
            tx_data,
            found_at: match found_at {
                Some(at) => at,
                None => now,
            },
            mined_at: None,
            pruned_at: None,
            child_txid: None,
            parent_txid: parent,
            is_cpfp_parent: false,
            seen_in_mempool: true,
            absolute_fee: fee,
            fee_rate: fee_rate,
            version: MEMPOOL_TRANSACTION_VERSION,
        };
        let ghost rowv = spec_new_mempool_row(txs0, tx@, found_at, fee, fee_rate, now);
        proof {
            assert(row@ =~= rowv);
            assert(forall|i: int|
                0 <= i < marked.len() ==> (#[trigger] marked[i]).inputs_hash
                    == txs0[i].inputs_hash);
            assert(self.txs@.map_values(|r: TxRow| r@) == marked);
            assert forall|i: int, j: int| 0 <= i < j < marked.len() implies (
            #[trigger] marked[i]).inputs_hash != (#[trigger] marked[j]).inputs_hash by {
                assert(txs0[i].inputs_hash != txs0[j].inputs_hash);
            }
            assert(spec_tx_keys_unique(marked));
        }
        upsert_tx_row(&mut self.txs, row);
        proof {
            lemma_upsert_wf_txs(txs0, marked, self@.txs, tx@, rowv);
            assert(self@.rbf == old(self)@.rbf);
            assert(spec_store_wf(self@));
        }
    }

    /// Records a coinbase transaction. Refused silently when `tx` is not a
    /// coinbase; otherwise written under its transaction id with the special
    /// coinbase shape: found and mined at the same instant, zero fee.
    #[verifier::rlimit(50)]
    pub fn record_coinbase_tx(&mut self, tx: &Tx, now: u64)
        requires
            old(self).wf(),
        ensures
            final(self).wf(),
            !spec_is_coinbase(tx@) ==> final(self)@ == old(self)@,
            spec_is_coinbase(tx@) ==> final(self)@.txs == spec_upsert_tx(
                old(self)@.txs,
                spec_coinbase_row(tx@, now),
            ),
            final(self)@.rbf == old(self)@.rbf,
            final(self)@.snapshots == old(self)@.snapshots,
            final(self)@.mining_info == old(self)@.mining_info,
            final(self)@.ledger == old(self)@.ledger,
            final(self)@.schema == old(self)@.schema,
    {
        if !tx.is_coinbase() {
            return;
        }
        let ghost txs0 = old(self)@.txs;
        let txid = compute_txid(tx);
        let key = copy_bytes(&txid);
        let tx_data = encode_tx(tx);
        let row = TxRow {
            inputs_hash: key,
            tx_id: txid,
            tx_data,
            found_at: now,
            mined_at: Some(now),
            pruned_at: None,
            child_txid: None,
            parent_txid: None,
            is_cpfp_parent: false,
            seen_in_mempool: true,
            absolute_fee: 0,
            fee_rate: 0,
            version: COINBASE_TRANSACTION_VERSION,
        };
        proof {
            assert(row@ =~= spec_coinbase_row(tx@, now));
        }
        upsert_tx_row(&mut self.txs, row);
        proof {
            lemma_upsert_wf_plain(txs0, self@.txs, spec_coinbase_row(tx@, now));
            assert(spec_store_wf(self@));
        }
    }

    /// Records that a transaction was observed mined. The row under its
    /// inputs-hash is updated in place: mined now, witness-stripped bytes,
    /// and it counts as seen in the pool. When no such row exists, a fresh
    /// row is appended that is marked as never seen in the pool.
    #[verifier::rlimit(50)]
    pub fn record_mined_tx(&mut self, tx: &Tx, now: u64)
        requires
            old(self).wf(),
        ensures
            final(self).wf(),
            final(self)@.txs == spec_record_mined(old(self)@.txs, tx@, now),
            final(self)@.rbf == old(self)@.rbf,
            final(self)@.snapshots == old(self)@.snapshots,
            final(self)@.mining_info == old(self)@.mining_info,
            final(self)@.ledger == old(self)@.ledger,
            final(self)@.schema == old(self)@.schema,
    {
        let ghost txs0 = old(self)@.txs;
        let h = inputs_digest(tx);
        let data = if tx.inputs.len() == 0 {
            encode_tx(tx)
        } else {
            encode_tx_base(tx)
        };
        proof {
            crate::encode::lemma_enc_prune(tx@);
            assert(data@ == spec_enc_tx(spec_prune_witnesses(tx@)));
        }
        match find_tx_index(&self.txs, &h) {
            Some(at) => {
                let ghost oldrow = txs0[at as int];
                let row = &mut self.txs[at];
                row.mined_at = Some(now);
                row.pruned_at = None;
                row.tx_data = data;
                row.seen_in_mempool = true;
                proof {
                    assert(spec_has_tx(txs0, spec_inputs_digest(tx@))) by {
                        assert(txs0[at as int].inputs_hash == spec_inputs_digest(tx@));
                    }
                    assert(self.txs@[at as int]@ =~= spec_mined_update(oldrow, tx@, now));
                    let txs1 = self.txs@.map_values(|r: TxRow| r@);
                    assert forall|j: int| 0 <= j < txs1.len() implies txs1[j] == (
                    if txs0[j].inputs_hash == spec_inputs_digest(tx@) {
                        spec_mined_update(txs0[j], tx@, now)
                    } else {
                        txs0[j]
                    }) by {
                        if j != at {
                            assert(txs0[j].inputs_hash != txs0[at as int].inputs_hash);
                            assert(self.txs@[j] == old(self).txs@[j]);
                        }
                    }
                    assert(txs1 =~= spec_record_mined(txs0, tx@, now));
                    assert(forall|i: int|
                        0 <= i < txs1.len() ==> (#[trigger] txs1[i]).inputs_hash
                            == txs0[i].inputs_hash);
                    lemma_wf_txs_pointwise(txs0, txs1);
                    assert(spec_store_wf(self@));
                }
            },
            None => {
                let txid = compute_txid(tx);
                let row = TxRow {
                    inputs_hash: h,
                    tx_id: txid,
                    tx_data: data,
                    found_at: now,
                    mined_at: Some(now),
                    pruned_at: None,
                    child_txid: None,
                    parent_txid: None,
                    is_cpfp_parent: false,
                    seen_in_mempool: false,
                    absolute_fee: 0,
                    fee_rate: 0,
                    version: MEMPOOL_TRANSACTION_VERSION,
                };
                proof {
                    assert(row@ =~= spec_mined_row(tx@, now));
                }
                self.txs.push(row);
                proof {
                    let txs1 = self.txs@.map_values(|r: TxRow| r@);
                    assert(txs1 =~= txs0.push(spec_mined_row(tx@, now)));
                    assert(txs1 == spec_upsert_tx(txs0, spec_mined_row(tx@, now)));
                    lemma_upsert_wf_plain(txs0, txs1, spec_mined_row(tx@, now));
                    assert(spec_store_wf(self@));
                }
            },
        }
    }

    /// Records a replacement round. When no row exists under the
    /// inputs-hash of `tx` this is a no-op: that is documented policy, not
    /// an error. Otherwise the replacement row for that key is written,
    /// keeping only this latest round.
    #[verifier::rlimit(50)]
    pub fn record_rbf(&mut self, tx: &Tx, fee_total: u64, now: u64)
        requires
            old(self).wf(),
        ensures
            final(self).wf(),
            !spec_has_tx(old(self)@.txs, spec_inputs_digest(tx@)) ==> final(self)@ == old(
                self,
            )@,
            spec_has_tx(old(self)@.txs, spec_inputs_digest(tx@)) ==> final(self)@.rbf
                == spec_upsert_rbf(old(self)@.rbf, spec_rbf_row(tx@, fee_total, now)),
            final(self)@.txs == old(self)@.txs,
            final(self)@.snapshots == old(self)@.snapshots,
            final(self)@.mining_info == old(self)@.mining_info,
            final(self)@.ledger == old(self)@.ledger,
            final(self)@.schema == old(self)@.schema,
    {
        if !self.tx_exists(tx) {
            return;
        }
        let h = inputs_digest(tx);
        let txid = compute_txid(tx);
        let row = RbfRow {
            inputs_hash: h,
            created_at: now,
            fee_total,
            replaces: txid,
            version: RBF_TRANSACTION_VERSION,
        };
        proof {
            assert(row@ =~= spec_rbf_row(tx@, fee_total, now));
        }
        upsert_rbf_row(&mut self.rbf, row);
        proof {
            assert(spec_store_wf(self@));
        }
    }

    /// Moves the stored transaction id forward to the id of `tx`, for the
    /// row under the inputs-hash of `tx`. The key itself never changes
    /// across fee bumps; only this field does.
    #[verifier::rlimit(50)]
    pub fn update_txid_by_inputs_hash(&mut self, tx: &Tx)
        requires
            old(self).wf(),
        ensures
            final(self).wf(),
            final(self)@.txs == spec_update_txid(
                old(self)@.txs,
                spec_inputs_digest(tx@),
                spec_txid(tx@),
            ),
            final(self)@.rbf == old(self)@.rbf,
            final(self)@.snapshots == old(self)@.snapshots,
            final(self)@.mining_info == old(self)@.mining_info,
            final(self)@.ledger == old(self)@.ledger,
            final(self)@.schema == old(self)@.schema,
    {
        let ghost txs0 = old(self)@.txs;
        let h = inputs_digest(tx);
        match find_tx_index(&self.txs, &h) {
            Some(at) => {
                let txid = compute_txid(tx);
                let row = &mut self.txs[at];
                row.tx_id = txid;
                proof {
                    assert(self.txs@[at as int]@ =~= (TxRowView {
                        tx_id: spec_txid(tx@),
                        ..txs0[at as int]
                    }));
                    let txs1 = self.txs@.map_values(|r: TxRow| r@);
                    assert forall|j: int| 0 <= j < txs1.len() implies txs1[j] == (
                    if txs0[j].inputs_hash == spec_inputs_digest(tx@) {
                        TxRowView { tx_id: spec_txid(tx@), ..txs0[j] }
                    } else {
                        txs0[j]
                    }) by {
                        if j != at {
                            assert(txs0[j].inputs_hash != txs0[at as int].inputs_hash);
                            assert(self.txs@[j] == old(self).txs@[j]);
                        }
                    }
                    assert(txs1 =~= spec_update_txid(txs0, spec_inputs_digest(tx@), spec_txid(tx@)));
                    assert(forall|i: int|
                        0 <= i < txs1.len() ==> (#[trigger] txs1[i]).inputs_hash
                            == txs0[i].inputs_hash);
                    lemma_wf_txs_pointwise(txs0, txs1);
                    assert(spec_store_wf(self@));
                }
            },
            None => {
                proof {
                    let txs1 = self.txs@.map_values(|r: TxRow| r@);
                    assert forall|j: int| 0 <= j < txs1.len() implies txs1[j] == (
                    if txs0[j].inputs_hash == spec_inputs_digest(tx@) {
                        TxRowView { tx_id: spec_txid(tx@), ..txs0[j] }
                    } else {
                        txs0[j]
                    }) by {
                        assert(txs0[j].inputs_hash != h@);
                    }
                    assert(txs1 =~= spec_update_txid(txs0, spec_inputs_digest(tx@), spec_txid(tx@)));
                }
            },
        }
    }

    /// The transaction ids of every live row, in table order.
    pub fn txids_in_mempool(&self) -> (r: Vec<Vec<u8>>)
        ensures
            r@.map_values(|v: Vec<u8>| v@) == spec_live_txids(self@.txs),
    {
        let ghost tv = self@.txs;
        let mut out: Vec<Vec<u8>> = Vec::new();
        let mut i: usize = 0;
        while i < self.txs.len()
            invariant
                tv == self@.txs,
                tv.len() == self.txs.len(),
                i <= self.txs.len(),
                out@.map_values(|v: Vec<u8>| v@) == spec_live_txids(tv.subrange(0, i as int)),
            decreases self.txs.len() - i,
        {
            let ghost pre = tv.subrange(0, i as int);
            proof {
                assert(self.txs@[i as int]@ == tv[i as int]);
            }
            if row_is_live(&self.txs[i]) {
                out.push(copy_bytes(&self.txs[i].tx_id));
            }
            i = i + 1;
            proof {
                assert(tv.subrange(0, i as int).drop_last() =~= pre);
                assert(tv.subrange(0, i as int).last() == tv[i - 1]);
                assert(out@.map_values(|v: Vec<u8>| v@) =~= spec_live_txids(
                    tv.subrange(0, i as int),
                ));
            }
        }
        proof {
            assert(tv.subrange(0, tv.len() as int) =~= tv);
        }
        out
    }

    /// The live transaction ids the upstream node no longer reports. An
    /// empty upstream list yields an empty answer: it may be a transient
    /// condition, and nothing should be pruned on its account.
    pub fn txids_of_txs_not_in_list(&self, upstream: &Vec<Vec<u8>>) -> (r: Vec<Vec<u8>>)
        ensures
            upstream@.len() == 0 ==> r@.len() == 0,
            upstream@.len() > 0 ==> r@.map_values(|v: Vec<u8>| v@) == spec_stale_txids(
                self@.txs,
                upstream@.map_values(|v: Vec<u8>| v@),
            ),
    {
        let mut out: Vec<Vec<u8>> = Vec::new();
        if upstream.len() == 0 {
            return out;
        }
        let ghost tv = self@.txs;
        let ghost up = upstream@.map_values(|v: Vec<u8>| v@);
        let mut i: usize = 0;
        while i < self.txs.len()
            invariant
                tv == self@.txs,
                tv.len() == self.txs.len(),
                up == upstream@.map_values(|v: Vec<u8>| v@),
                i <= self.txs.len(),
                out@.map_values(|v: Vec<u8>| v@) == spec_stale_txids(
                    tv.subrange(0, i as int),
                    up,
                ),
            decreases self.txs.len() - i,
        {
            let ghost pre = tv.subrange(0, i as int);
            proof {
                assert(self.txs@[i as int]@ == tv[i as int]);
            }
            if row_is_live(&self.txs[i]) && !list_contains(upstream, &self.txs[i].tx_id) {
                out.push(copy_bytes(&self.txs[i].tx_id));
            }
            i = i + 1;
            proof {
                assert(tv.subrange(0, i as int).drop_last() =~= pre);
                assert(tv.subrange(0, i as int).last() == tv[i - 1]);
                assert(out@.map_values(|v: Vec<u8>| v@) =~= spec_stale_txids(
                    tv.subrange(0, i as int),
                    up,
                ));
            }
        }
        proof {
            assert(tv.subrange(0, tv.len() as int) =~= tv);
        }
        out
    }

    /// Marks the live rows named in `txids` as pruned at `now`. Rows that
    /// are already mined or pruned are never touched.
    #[verifier::rlimit(50)]
    pub fn record_pruned_txs(&mut self, txids: &Vec<Vec<u8>>, now: u64)
        requires
            old(self).wf(),
        ensures
            final(self).wf(),
            final(self)@.txs == spec_mark_pruned(
                old(self)@.txs,
                txids@.map_values(|v: Vec<u8>| v@),
                now,
            ),
            final(self)@.rbf == old(self)@.rbf,
            final(self)@.snapshots == old(self)@.snapshots,
            final(self)@.mining_info == old(self)@.mining_info,
            final(self)@.ledger == old(self)@.ledger,
            final(self)@.schema == old(self)@.schema,
    {
        let ghost txs0 = old(self)@.txs;
        let ghost ids = txids@.map_values(|v: Vec<u8>| v@);
        let ghost marked = spec_mark_pruned(txs0, ids, now);
        let n = self.txs.len();
        let mut i: usize = 0;
        while i < n
            invariant
                old(self).wf(),
                n == self.txs.len(),
                i <= n,
                txs0 == old(self)@.txs,
                txs0.len() == n,
                ids == txids@.map_values(|v: Vec<u8>| v@),
                marked == spec_mark_pruned(txs0, ids, now),
                marked.len() == n,
                self.rbf == old(self).rbf,
                self.snapshots == old(self).snapshots,
                self.mining_info == old(self).mining_info,
                self.ledger == old(self).ledger,
                self.schema == old(self).schema,
                forall|j: int| i <= j < n ==> self.txs@[j] == old(self).txs@[j],
                forall|j: int| 0 <= j < i ==> #[trigger] self.txs@[j]@ == marked[j],
            decreases n - i,
        {
            proof {
                assert(old(self).txs@[i as int]@ == txs0[i as int]);
                assert(txs0[i as int] == self.txs@[i as int]@);
                assert(marked[i as int] == (if spec_live(txs0[i as int]) && spec_contains_bytes(
                    ids,
                    txs0[i as int].tx_id,
                ) {
                    TxRowView { pruned_at: Some(now), ..txs0[i as int] }
                } else {
                    txs0[i as int]
                }));
            }
            if row_is_live(&self.txs[i]) && list_contains(txids, &self.txs[i].tx_id) {
                let row = &mut self.txs[i];
                row.pruned_at = Some(now);
                proof {
                    assert(self.txs@[i as int]@ =~= marked[i as int]);
                }
            }
            i = i + 1;
        }
        proof {
            let txs1 = self.txs@.map_values(|r: TxRow| r@);
            assert(txs1 =~= marked);
            assert(forall|j: int|
                0 <= j < txs1.len() ==> (#[trigger] txs1[j]).inputs_hash == txs0[j].inputs_hash);
            lemma_wf_txs_pointwise(txs0, txs1);
            assert forall|j: int| 0 <= j < txs1.len() implies !((
            #[trigger] txs1[j]).mined_at is Some && txs1[j].pruned_at is Some) by {
                assert(!(txs0[j].mined_at is Some && txs0[j].pruned_at is Some));
            }
            assert(spec_store_wf(self@));
        }
    }

    /// Appends one pool snapshot row.
    pub fn record_mempool_state(
        &mut self,
        mempool_size: u64,
        mempool_tx_count: u64,
        block_height: u64,
        block_hash: Vec<u8>,
        now: u64,
    )
        requires
            old(self).wf(),
        ensures
            final(self).wf(),
            final(self)@.snapshots == old(self)@.snapshots.push(
                SnapshotRowView {
                    created_at: now,
                    size: mempool_size,
                    tx_count: mempool_tx_count,
                    block_height: block_height,
                    block_hash: block_hash@,
                    version: MEMPOOL_STATE_VERSION,
                },
            ),
            final(self)@.txs == old(self)@.txs,
            final(self)@.rbf == old(self)@.rbf,
            final(self)@.mining_info == old(self)@.mining_info,
            final(self)@.ledger == old(self)@.ledger,
            final(self)@.schema == old(self)@.schema,
    {
        let ghost hv = block_hash@;
        let row = SnapshotRow {
            created_at: now,
            size: mempool_size,
            tx_count: mempool_tx_count,
            block_height,
            block_hash,
            version: MEMPOOL_STATE_VERSION,
        };
        self.snapshots.push(row);
        proof {
            assert(self@.snapshots =~= old(self)@.snapshots.push(
                SnapshotRowView {
                    created_at: now,
                    size: mempool_size,
                    tx_count: mempool_tx_count,
                    block_height: block_height,
                    block_hash: hv,
                    version: MEMPOOL_STATE_VERSION,
                },
            ));
        }
    }

    /// Appends one mining-info row holding the document verbatim.
    pub fn record_mining_info(&mut self, hash_rate_distribution: String, now: u64)
        requires
            old(self).wf(),
        ensures
            final(self).wf(),
            final(self)@.mining_info == old(self)@.mining_info.push(
                MiningInfoRowView {
                    created_at: now,
                    hash_rate_distribution: hash_rate_distribution@,
                },
            ),
            final(self)@.txs == old(self)@.txs,
            final(self)@.rbf == old(self)@.rbf,
            final(self)@.snapshots == old(self)@.snapshots,
            final(self)@.ledger == old(self)@.ledger,
            final(self)@.schema == old(self)@.schema,
    {
        let ghost dv = hash_rate_distribution@;
        let row = MiningInfoRow { created_at: now, hash_rate_distribution };
        self.mining_info.push(row);
        proof {
            assert(self@.mining_info =~= old(self)@.mining_info.push(
                MiningInfoRowView { created_at: now, hash_rate_distribution: dv },
            ));
        }
    }

    /// Deletes every row that is neither mined nor pruned. Run once at
    /// startup: live rows from an earlier run cannot be trusted across an
    /// outage.
    #[verifier::rlimit(50)]
    pub fn remove_stale_txs(&mut self)
        requires
            old(self).wf(),
        ensures
            final(self).wf(),
            final(self)@.txs == spec_remove_stale(old(self)@.txs),
            forall|i: int| 0 <= i < final(self)@.txs.len() ==> !spec_live(
                #[trigger] final(self)@.txs[i],
            ),
            final(self)@.rbf == old(self)@.rbf,
            final(self)@.snapshots == old(self)@.snapshots,
            final(self)@.mining_info == old(self)@.mining_info,
            final(self)@.ledger == old(self)@.ledger,
            final(self)@.schema == old(self)@.schema,
    {
        let ghost txs0 = old(self)@.txs;
        let ghost mut k: int = 0;
        let mut i: usize = 0;
        while i < self.txs.len()
            invariant
                old(self).wf(),
                txs0 == old(self)@.txs,
                0 <= k <= txs0.len(),
                i as int == spec_remove_stale(txs0.subrange(0, k)).len(),
                i <= self.txs.len(),
                self.rbf == old(self).rbf,
                self.snapshots == old(self).snapshots,
                self.mining_info == old(self).mining_info,
                self.ledger == old(self).ledger,
                self.schema == old(self).schema,
                self.txs@.map_values(|r: TxRow| r@) == spec_remove_stale(txs0.subrange(0, k))
                    + txs0.subrange(k, txs0.len() as int),
            decreases txs0.len() - k,
        {
            let ghost prev = self.txs@;
            let ghost prevv = prev.map_values(|r: TxRow| r@);
            let ghost rsp = spec_remove_stale(txs0.subrange(0, k));
            let ghost suffix = txs0.subrange(k, txs0.len() as int);
            proof {
                assert(prevv.len() == prev.len());
                assert(k < txs0.len());
                assert(prevv[i as int] == suffix[0]);
                assert(suffix[0] == txs0[k]);
                assert(self.txs@[i as int]@ == txs0[k]);
                assert(txs0.subrange(0, k + 1).drop_last() =~= txs0.subrange(0, k));
                assert(txs0.subrange(0, k + 1).last() == txs0[k]);
                assert(suffix.drop_first() =~= txs0.subrange(k + 1, txs0.len() as int));
            }
            if row_is_live(&self.txs[i]) {
                self.txs.remove(i);
                proof {
                    k = k + 1;
                    assert(spec_remove_stale(txs0.subrange(0, k)) =~= rsp);
                    assert(self.txs@ == prev.remove(i as int));
                    let cur = self.txs@.map_values(|r: TxRow| r@);
                    assert forall|j: int| 0 <= j < cur.len() implies cur[j] == prevv.remove(
                        i as int,
                    )[j] by {
                        if j < i {
                            assert(self.txs@[j] == prev[j]);
                        } else {
                            assert(self.txs@[j] == prev[j + 1]);
                        }
                    }
                    assert(cur =~= prevv.remove(i as int));
                    assert(prevv.remove(i as int) =~= rsp + suffix.drop_first());
                    assert(cur =~= spec_remove_stale(txs0.subrange(0, k)) + txs0.subrange(
                        k,
                        txs0.len() as int,
                    ));
                }
            } else {
                i = i + 1;
                proof {
                    k = k + 1;
                    assert(spec_remove_stale(txs0.subrange(0, k)) =~= rsp + seq![txs0[k - 1]]);
                    assert(prevv =~= (rsp + seq![txs0[k - 1]]) + suffix.drop_first());
                    assert(self.txs@.map_values(|r: TxRow| r@) =~= spec_remove_stale(
                        txs0.subrange(0, k),
                    ) + txs0.subrange(k, txs0.len() as int));
                }
            }
        }
        proof {
            assert(k == txs0.len());
            assert(txs0.subrange(0, k) =~= txs0);
            assert(txs0.subrange(k, txs0.len() as int).len() == 0);
            assert(self.txs@.map_values(|r: TxRow| r@) =~= spec_remove_stale(txs0));
            lemma_remove_stale_wf(txs0);
            assert(spec_store_wf(self@));
        }
    }

    /// Runs every schema migration not yet in the ledger, in order.
    pub fn run_migrations(&mut self, now: u64)
        requires
            old(self).wf(),
        ensures
            final(self).wf(),
            (final(self)@.ledger, final(self)@.schema) == spec_run_migrations(
                old(self)@.ledger,
                old(self)@.schema,
                now,
            ),
            final(self)@.txs == old(self)@.txs,
            final(self)@.rbf == old(self)@.rbf,
            final(self)@.snapshots == old(self)@.snapshots,
            final(self)@.mining_info == old(self)@.mining_info,
    {
        crate::migrations::run_migrations(&mut self.ledger, &mut self.schema, now);
    }

    /// Whether the earliest row under `txid` is marked as a CPFP parent;
    /// `None` when no row carries that id.
    pub fn is_cpfp_parent(&self, txid: &Vec<u8>) -> (r: Option<bool>)
        ensures
            match spec_first_by_txid(self@.txs, txid@) {
                Some(row) => r == Some(row.is_cpfp_parent),
                None => r is None,
            },
    {
        match self.find_first_by_txid(txid) {
            Some(i) => Some(self.txs[i].is_cpfp_parent),
            None => None,
        }
    }

    /// Whether the earliest row under `txid` is mined; `None` when no row
    /// carries that id.
    pub fn is_mined(&self, txid: &Vec<u8>) -> (r: Option<bool>)
        ensures
            match spec_first_by_txid(self@.txs, txid@) {
                Some(row) => r == Some(row.mined_at is Some),
                None => r is None,
            },
    {
        match self.find_first_by_txid(txid) {
            Some(i) => Some(self.txs[i].mined_at.is_some()),
            None => None,
        }
    }

    /// Whether some replacement row records `txid` as the replacing
    /// transaction.
    pub fn is_rbf(&self, txid: &Vec<u8>) -> (r: bool)
        ensures
            r == spec_rbf_replaces(self@.rbf, txid@),
    {
        let ghost rv = self@.rbf;
        let mut i: usize = 0;
        while i < self.rbf.len()
            invariant
                rv == self@.rbf,
                rv.len() == self.rbf.len(),
                i <= self.rbf.len(),
                forall|j: int| 0 <= j < i ==> (#[trigger] rv[j]).replaces != txid@,
            decreases self.rbf.len() - i,
        {
            proof {
                assert(self.rbf@[i as int]@ == rv[i as int]);
            }
            if bytes_eq(&self.rbf[i].replaces, txid) {
                proof {
                    assert(rv[i as int].replaces == txid@);
                }
                return true;
            }
            i = i + 1;
        }
        false
    }

    /// The stored transaction under `txid`, decoded from its stored byte
    /// form: `None` when no row carries that id or the stored bytes do not
    /// decode.
    pub fn get_tx_by_txid(&self, txid: &Vec<u8>) -> (r: Option<Tx>)
        ensures
            match spec_first_by_txid(self@.txs, txid@) {
                Some(row) => match crate::decode::spec_dec_tx(row.tx_data) {
                    Some(t) => r matches Some(tx) && tx@ == t,
                    None => r is None,
                },
                None => r is None,
            },
    {
        match self.find_first_by_txid(txid) {
            Some(i) => crate::decode::decode_tx(&self.txs[i].tx_data),
            None => None,
        }
    }

    /// The index of the earliest row carrying `txid`, if any.
    fn find_first_by_txid(&self, txid: &Vec<u8>) -> (r: Option<usize>)
        ensures
            match r {
                Some(i) => i < self.txs@.len() && Some(self@.txs[i as int])
                    == spec_first_by_txid(self@.txs, txid@),
                None => spec_first_by_txid(self@.txs, txid@) is None,
            },
    {
        let ghost tv = self@.txs;
        proof {
            assert(tv.subrange(0, tv.len() as int) =~= tv);
        }
        let mut i: usize = 0;
        while i < self.txs.len()
            invariant
                tv == self@.txs,
                tv.len() == self.txs.len(),
                i <= self.txs.len(),
                spec_first_by_txid(tv, txid@) == spec_first_by_txid(
                    tv.subrange(i as int, tv.len() as int),
                    txid@,
                ),
            decreases self.txs.len() - i,
        {
            let ghost rest = tv.subrange(i as int, tv.len() as int);
            proof {
                assert(self.txs@[i as int]@ == tv[i as int]);
                assert(rest[0] == tv[i as int]);
            }
            if bytes_eq(&self.txs[i].tx_id, txid) {
                return Some(i);
            }
            i = i + 1;
            proof {
                assert(rest.drop_first() =~= tv.subrange(i as int, tv.len() as int));
            }
        }
        proof {
            assert(tv.subrange(tv.len() as int, tv.len() as int).len() == 0);
        }
        None
    }
}

/// After marking parents and upserting a live row, the table invariant
/// still holds: keys are unchanged by marking, the upsert keeps them
/// unique, and neither step makes a row both mined and pruned.
proof fn lemma_upsert_wf_txs(
    txs0: Seq<TxRowView>,
    marked: Seq<TxRowView>,
    txs1: Seq<TxRowView>,
    t: TxView,
    row: TxRowView,
)
    requires
        spec_tx_keys_unique(txs0),
        spec_no_mined_and_pruned(txs0),
        marked == spec_cpfp_mark(txs0, t, row.tx_id),
        txs1 == spec_upsert_tx(marked, row),
        row.mined_at is None || row.pruned_at is None,
    ensures
        spec_tx_keys_unique(txs1),
        spec_no_mined_and_pruned(txs1),
{
    assert(forall|i: int|
        0 <= i < marked.len() ==> (#[trigger] marked[i]).inputs_hash == txs0[i].inputs_hash);
    assert(forall|i: int|
        0 <= i < marked.len() ==> (#[trigger] marked[i]).mined_at == txs0[i].mined_at
            && marked[i].pruned_at == txs0[i].pruned_at);
    if spec_has_tx(marked, row.inputs_hash) {
        assert forall|i: int, j: int| 0 <= i < j < txs1.len() implies (
        #[trigger] txs1[i]).inputs_hash != (#[trigger] txs1[j]).inputs_hash by {
            assert(txs0[i].inputs_hash != txs0[j].inputs_hash);
        }
    } else {
        assert forall|i: int, j: int| 0 <= i < j < txs1.len() implies (
        #[trigger] txs1[i]).inputs_hash != (#[trigger] txs1[j]).inputs_hash by {
            if j == txs1.len() - 1 {
                assert(txs1[i] == marked[i]);
                assert(!spec_has_tx(marked, row.inputs_hash));
                assert(marked[i].inputs_hash != row.inputs_hash);
            } else {
                assert(txs0[i].inputs_hash != txs0[j].inputs_hash);
            }
        }
    }
}

} // verus!
