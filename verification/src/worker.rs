//! The classifier: what one unit of work does to the store. The
//! surrounding runtime fetches confirmations and previous-output values and
//! hands them in as plain values; every decision below is verified.

use vstd::prelude::*;

use crate::decode::{decode_tx, spec_dec_tx};
use crate::digest::{spec_inputs_digest, spec_txid};
use crate::encode::spec_weight;
use crate::fee::{
    get_absolute_fee, compute_fee_rate, spec_nonnull_count, spec_output_total, spec_sum,
};
use crate::store::{
    spec_cpfp_mark, spec_has_tx, spec_new_mempool_row, spec_coinbase_row, spec_rbf_row,
    spec_record_mined, spec_update_txid, spec_upsert_rbf, spec_upsert_tx, Store,
};
use crate::tx::{spec_is_coinbase, TxView};

verus! {

/// One unit of work for a worker.
#[derive(Debug, Clone)]
pub enum Task {
    /// A serialized transaction from the live stream.
    RawTx(Vec<u8>),
    /// Sweep for transactions the node no longer holds.
    PruneCheck,
    /// Snapshot the pool-wide state.
    MempoolState,
    /// Fetch and store the mining-info document.
    MiningInfo,
}

/// How a raw transaction was classified against the store.
#[derive(PartialEq, Eq, Structural, Clone, Copy, Debug)]
pub enum Classification {
    /// A coinbase transaction, recorded under its own id.
    Coinbase,
    /// Already confirmed when first seen.
    Mined,
    /// A fee bump: its inputs-hash was already known.
    Replacement,
    /// A transaction seen for the first time.
    New,
}

/// Why a raw-transaction task was dropped. Either way the store is
/// untouched; the worker logs and moves on.
#[derive(PartialEq, Eq, Structural, Clone, Copy, Debug)]
pub enum ProcessError {
    /// The payload is not a consensus-encoded transaction.
    Decode,
    /// The fee could not be resolved from the supplied values.
    Fee,
}

/// Whether the absolute fee can be computed from `values`: one value per
/// real outpoint, a representable input total, and a non-negative fee.
pub open spec fn spec_abs_fee_ok(t: TxView, values: Seq<u64>) -> bool {
    spec_is_coinbase(t) || (values.len() == spec_nonnull_count(t.inputs) && spec_sum(values)
        <= u64::MAX && spec_output_total(t) <= spec_sum(values))
}

/// The absolute fee: input total minus output total; a coinbase pays none.
pub open spec fn spec_abs_fee(t: TxView, values: Seq<u64>) -> u64 {
    if spec_is_coinbase(t) {
        0u64
    } else {
        (spec_sum(values) - spec_output_total(t)) as u64
    }
}

/// The fee rate recorded with a processed transaction.
pub open spec fn spec_rate_of(t: TxView, values: Seq<u64>) -> u64 {
    crate::fee::spec_fee_rate(t, spec_abs_fee(t, values)) as u64
}

/// Resolves the fee and fee rate of a non-coinbase transaction from the
/// supplied previous-output values: `None` exactly when the values do not
/// fit the inputs, the totals cannot be represented, or the fee would be
/// negative.
fn resolve_fee(tx: &crate::tx::Tx, prevout_values: &Vec<u64>) -> (r: Option<(u64, u64)>)
    requires
        !spec_is_coinbase(tx@),
    ensures
        r is Some <==> spec_abs_fee_ok(tx@, prevout_values@) && spec_weight(tx@) <= u64::MAX - 3,
        r matches Some(v) ==> v.0 == spec_abs_fee(tx@, prevout_values@) && v.1 == spec_rate_of(
            tx@,
            prevout_values@,
        ),
{
    let fee = match get_absolute_fee(tx, prevout_values) {
        Some(fee) => fee,
        None => {
            return None;
        },
    };
    let fee_rate = match compute_fee_rate(tx, fee) {
        Some(rate) => rate,
        None => {
            return None;
        },
    };
    Some((fee, fee_rate))
}

/// Applies an unconfirmed non-coinbase transaction: a known inputs-hash is
/// a replacement round, anything else a fresh insert with CPFP marking.
fn apply_unconfirmed_tx(
    store: &mut Store,
    tx: &crate::tx::Tx,
    fee: u64,
    fee_rate: u64,
    now: u64,
) -> (c: Classification)
    requires
        old(store).wf(),
    ensures
        final(store).wf(),
        final(store)@.snapshots == old(store)@.snapshots,
        final(store)@.mining_info == old(store)@.mining_info,
        final(store)@.ledger == old(store)@.ledger,
        final(store)@.schema == old(store)@.schema,
        spec_has_tx(old(store)@.txs, spec_inputs_digest(tx@)) ==> c
            == Classification::Replacement && final(store)@.txs == spec_update_txid(
            old(store)@.txs,
            spec_inputs_digest(tx@),
            spec_txid(tx@),
        ) && final(store)@.rbf == spec_upsert_rbf(old(store)@.rbf, spec_rbf_row(tx@, fee, now)),
        !spec_has_tx(old(store)@.txs, spec_inputs_digest(tx@)) ==> c == Classification::New
            && final(store)@.txs == spec_upsert_tx(
            spec_cpfp_mark(old(store)@.txs, tx@, spec_txid(tx@)),
            spec_new_mempool_row(old(store)@.txs, tx@, None, fee, fee_rate, now),
        ) && final(store)@.rbf == old(store)@.rbf,
{
    if store.tx_exists(tx) {
        store.record_rbf(tx, fee, now);
        store.update_txid_by_inputs_hash(tx);
        return Classification::Replacement;
    }
    store.insert_mempool_tx(tx, None, fee, fee_rate, now);
    Classification::New
}

/// Applies one decoded transaction to the store, as `process_raw_tx`
/// describes, given the resolved confirmations and previous-output values.
#[verifier::rlimit(100)]
pub fn apply_decoded_tx(
    store: &mut Store,
    tx: &crate::tx::Tx,
    confirmations: u64,
    prevout_values: &Vec<u64>,
    now: u64,
) -> (r: Result<Classification, ProcessError>)
    requires
        old(store).wf(),
    ensures
        final(store).wf(),
        final(store)@.snapshots == old(store)@.snapshots,
        final(store)@.mining_info == old(store)@.mining_info,
        final(store)@.ledger == old(store)@.ledger,
        final(store)@.schema == old(store)@.schema,
        r != Err::<Classification, ProcessError>(ProcessError::Decode),
        (tx@) matches t ==> {
            &&& spec_is_coinbase(t) ==> r == Ok::<Classification, ProcessError>(
                Classification::Coinbase,
            ) && final(store)@.txs == spec_upsert_tx(
                old(store)@.txs,
                spec_coinbase_row(t, now),
            ) && final(store)@.rbf == old(store)@.rbf
            &&& !spec_is_coinbase(t) && !spec_abs_fee_ok(t, prevout_values@) ==> r == Err::<
                Classification,
                ProcessError,
            >(ProcessError::Fee) && final(store)@ == old(store)@
            &&& !spec_is_coinbase(t) && spec_abs_fee_ok(t, prevout_values@) && spec_weight(t)
                > u64::MAX - 3 ==> r == Err::<Classification, ProcessError>(ProcessError::Fee)
                && final(store)@ == old(store)@
            &&& !spec_is_coinbase(t) && spec_abs_fee_ok(t, prevout_values@) && spec_weight(t)
                <= u64::MAX - 3 ==> {
                &&& confirmations > 0 ==> r == Ok::<Classification, ProcessError>(
                    Classification::Mined,
                ) && final(store)@.txs == spec_record_mined(old(store)@.txs, t, now)
                    && final(store)@.rbf == old(store)@.rbf
                &&& confirmations == 0 && spec_has_tx(old(store)@.txs, spec_inputs_digest(t))
                    ==> r == Ok::<Classification, ProcessError>(Classification::Replacement)
                    && final(store)@.txs == spec_update_txid(
                    old(store)@.txs,
                    spec_inputs_digest(t),
                    spec_txid(t),
                ) && final(store)@.rbf == spec_upsert_rbf(
                    old(store)@.rbf,
                    spec_rbf_row(t, spec_abs_fee(t, prevout_values@), now),
                )
                &&& confirmations == 0 && !spec_has_tx(old(store)@.txs, spec_inputs_digest(t))
                    ==> r == Ok::<Classification, ProcessError>(Classification::New)
                    && final(store)@.txs == spec_upsert_tx(
                    spec_cpfp_mark(old(store)@.txs, t, spec_txid(t)),
                    spec_new_mempool_row(
                        old(store)@.txs,
                        t,
                        None,
                        spec_abs_fee(t, prevout_values@),
                        spec_rate_of(t, prevout_values@),
                        now,
                    ),
                ) && final(store)@.rbf == old(store)@.rbf
            }
        },
{
    if tx.is_coinbase() {
        store.record_coinbase_tx(tx, now);
        return Ok(Classification::Coinbase);
    }
    let (fee, fee_rate) = match resolve_fee(tx, prevout_values) {
        Some(v) => v,
        None => {
            return Err(ProcessError::Fee);
        },
    };
    if confirmations > 0 {
        store.record_mined_tx(tx, now);
        return Ok(Classification::Mined);
    }
    Ok(apply_unconfirmed_tx(store, tx, fee, fee_rate, now))
}

/// Handles one raw-transaction task against the store.
///
/// The caller resolved `confirmations` and the value of every real
/// previous output beforehand; both are plain values here. In order: a
/// payload that does not decode is dropped; a coinbase is recorded as such;
/// a fee that cannot be resolved drops the task; a confirmed transaction is
/// recorded mined; a known inputs-hash is a replacement round, recording
/// the bump and moving the stored id forward; anything else is a fresh
/// insert with CPFP marking.
#[verifier::rlimit(100)]
pub fn process_raw_tx(
    store: &mut Store,
    bytes: &Vec<u8>,
    confirmations: u64,
    prevout_values: &Vec<u64>,
    now: u64,
) -> (r: Result<Classification, ProcessError>)
    requires
        old(store).wf(),
    ensures
        final(store).wf(),
        final(store)@.snapshots == old(store)@.snapshots,
        final(store)@.mining_info == old(store)@.mining_info,
        final(store)@.ledger == old(store)@.ledger,
        final(store)@.schema == old(store)@.schema,
        spec_dec_tx(bytes@) is None ==> r == Err::<Classification, ProcessError>(
            ProcessError::Decode,
        ) && final(store)@ == old(store)@,
        spec_dec_tx(bytes@) matches Some(t) ==> {
            &&& spec_is_coinbase(t) ==> r == Ok::<Classification, ProcessError>(
                Classification::Coinbase,
            ) && final(store)@.txs == spec_upsert_tx(
                old(store)@.txs,
                spec_coinbase_row(t, now),
            ) && final(store)@.rbf == old(store)@.rbf
            &&& !spec_is_coinbase(t) && !spec_abs_fee_ok(t, prevout_values@) ==> r == Err::<
                Classification,
                ProcessError,
            >(ProcessError::Fee) && final(store)@ == old(store)@
            &&& !spec_is_coinbase(t) && spec_abs_fee_ok(t, prevout_values@) && spec_weight(t)
                > u64::MAX - 3 ==> r == Err::<Classification, ProcessError>(ProcessError::Fee)
                && final(store)@ == old(store)@
            &&& !spec_is_coinbase(t) && spec_abs_fee_ok(t, prevout_values@) && spec_weight(t)
                <= u64::MAX - 3 ==> {
                &&& confirmations > 0 ==> r == Ok::<Classification, ProcessError>(
                    Classification::Mined,
                ) && final(store)@.txs == spec_record_mined(old(store)@.txs, t, now)
                    && final(store)@.rbf == old(store)@.rbf
                &&& confirmations == 0 && spec_has_tx(old(store)@.txs, spec_inputs_digest(t))
                    ==> r == Ok::<Classification, ProcessError>(Classification::Replacement)
                    && final(store)@.txs == spec_update_txid(
                    old(store)@.txs,
                    spec_inputs_digest(t),
                    spec_txid(t),
                ) && final(store)@.rbf == spec_upsert_rbf(
                    old(store)@.rbf,
                    spec_rbf_row(t, spec_abs_fee(t, prevout_values@), now),
                )
                &&& confirmations == 0 && !spec_has_tx(old(store)@.txs, spec_inputs_digest(t))
                    ==> r == Ok::<Classification, ProcessError>(Classification::New)
                    && final(store)@.txs == spec_upsert_tx(
                    spec_cpfp_mark(old(store)@.txs, t, spec_txid(t)),
                    spec_new_mempool_row(
                        old(store)@.txs,
                        t,
                        None,
                        spec_abs_fee(t, prevout_values@),
                        spec_rate_of(t, prevout_values@),
                        now,
                    ),
                ) && final(store)@.rbf == old(store)@.rbf
            }
        },
{
    let tx = match decode_tx(bytes) {
        Some(tx) => tx,
        None => {
            return Err(ProcessError::Decode);
        },
    };
    apply_decoded_tx(store, &tx, confirmations, prevout_values, now)
}

/// The prune sweep against a fresh upstream list: every live transaction
/// the node no longer reports is marked pruned at `now`. An empty upstream
/// list prunes nothing.
pub fn check_for_pruned_txs(store: &mut Store, upstream: &Vec<Vec<u8>>, now: u64)
    requires
        old(store).wf(),
    ensures
        final(store).wf(),
        upstream@.len() == 0 ==> final(store)@ == old(store)@,
        upstream@.len() > 0 ==> final(store)@.txs == crate::store::spec_mark_pruned(
            old(store)@.txs,
            crate::store::spec_stale_txids(
                old(store)@.txs,
                upstream@.map_values(|v: Vec<u8>| v@),
            ),
            now,
        ),
        final(store)@.rbf == old(store)@.rbf,
        final(store)@.snapshots == old(store)@.snapshots,
        final(store)@.mining_info == old(store)@.mining_info,
        final(store)@.ledger == old(store)@.ledger,
        final(store)@.schema == old(store)@.schema,
{
    if upstream.len() == 0 {
        return;
    }
    let pruned = store.txids_of_txs_not_in_list(upstream);
    store.record_pruned_txs(&pruned, now);
}

} // verus!
