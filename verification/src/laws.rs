//! The library-wide laws: properties that hold of every transaction and
//! every reachable store, stated once and proved from the contracts of the
//! operations they speak about.

use vstd::prelude::*;

use crate::decode::{spec_clear_witness, spec_dec_tx, spec_tx_sizes_wf};
use crate::digest::spec_inputs_digest;
use crate::encode::{lemma_enc_inputs_congruent, spec_enc_tx};
use crate::digest::spec_txid;
use crate::store::{
    spec_cpfp_mark, spec_has_live_txid, spec_has_rbf, spec_has_tx, spec_live,
    spec_new_mempool_row, spec_parent_of, spec_rbf_keys_unique, spec_spends, spec_tx_keys_unique,
    spec_upsert_rbf, spec_upsert_tx, RbfRowView, Store, TxRowView,
};
use crate::tx::{spec_prune_witnesses, TxInputView, TxView};

verus! {

/// The inputs-hash is a function of the inputs' outpoints, unlocking
/// scripts and sequence numbers alone: two transactions that agree on
/// those, however their outputs, witnesses, version or lock time differ,
/// share one inputs-hash.
pub proof fn lemma_inputs_hash_of_inputs_alone(t1: TxView, t2: TxView)
    requires
        t1.inputs.len() == t2.inputs.len(),
        forall|i: int|
            0 <= i < t1.inputs.len() ==> (#[trigger] t1.inputs[i]).previous_output == (
            #[trigger] t2.inputs[i]).previous_output && t1.inputs[i].script_sig
                == t2.inputs[i].script_sig && t1.inputs[i].sequence == t2.inputs[i].sequence,
    ensures
        spec_inputs_digest(t1) == spec_inputs_digest(t2),
{
    lemma_enc_inputs_congruent(t1.inputs, t2.inputs);
}

/// No row of a well-formed store is both mined and pruned. Every store
/// starts well-formed and every operation requires and preserves
/// well-formedness, so this holds after any sequence of operations.
pub proof fn lemma_no_row_mined_and_pruned(s: &Store, i: int)
    requires
        s.wf(),
        0 <= i < s@.txs.len(),
    ensures
        !(s@.txs[i].mined_at is Some && s@.txs[i].pruned_at is Some),
{
}

/// The stored byte form of a mined transaction decodes, and what it
/// decodes to is the original transaction with every input witness empty:
/// outputs, unlocking scripts, outpoints and sequence numbers unchanged.
/// `record_mined_tx` stores exactly these bytes.
pub proof fn lemma_mined_tx_data_round_trip(t: TxView)
    requires
        spec_tx_sizes_wf(t),
    ensures
        spec_dec_tx(spec_enc_tx(spec_prune_witnesses(t))) == Some(spec_prune_witnesses(t)),
        spec_prune_witnesses(t).outputs == t.outputs,
        spec_prune_witnesses(t).version == t.version,
        spec_prune_witnesses(t).lock_time == t.lock_time,
        spec_prune_witnesses(t).inputs.len() == t.inputs.len(),
        forall|i: int|
            0 <= i < t.inputs.len() ==> #[trigger] spec_prune_witnesses(t).inputs[i]
                == spec_clear_witness(t.inputs[i]),
{
    let p = spec_prune_witnesses(t);
    assert forall|i: int| 0 <= i < t.inputs.len() implies #[trigger] p.inputs[i]
        == spec_clear_witness(t.inputs[i]) by {
        assert(p.inputs[i] =~= spec_clear_witness(t.inputs[i]));
    }
    assert(spec_tx_sizes_wf(p)) by {
        assert(forall|i: int|
            0 <= i < p.inputs.len() ==> (#[trigger] p.inputs[i]).witness.len() == 0);
    }
    crate::decode::lemma_round_trip(p);
}

/// Replacement rows are keyed by inputs-hash: in a well-formed store no
/// two of them share one, so the table's row count is the number of
/// distinct inputs-hashes ever replaced, not the number of rounds.
pub proof fn lemma_rbf_rows_keyed_by_inputs_hash(s: &Store, i: int, j: int)
    requires
        s.wf(),
        0 <= i < j < s@.rbf.len(),
    ensures
        s@.rbf[i].inputs_hash != s@.rbf[j].inputs_hash,
{
}

/// Writing a replacement row adds its key and no other: a second round
/// under a known key changes the row, never the count.
pub proof fn lemma_upsert_rbf_keys(rbf: Seq<RbfRowView>, row: RbfRowView, h: Seq<u8>)
    ensures
        spec_has_rbf(spec_upsert_rbf(rbf, row), h) <==> spec_has_rbf(rbf, h) || h
            == row.inputs_hash,
        spec_has_rbf(rbf, row.inputs_hash) ==> spec_upsert_rbf(rbf, row).len() == rbf.len(),
        !spec_has_rbf(rbf, row.inputs_hash) ==> spec_upsert_rbf(rbf, row).len() == rbf.len() + 1,
{
    let up = spec_upsert_rbf(rbf, row);
    if spec_has_rbf(rbf, row.inputs_hash) {
        if spec_has_rbf(up, h) {
            let i = choose|i: int| 0 <= i < up.len() && up[i].inputs_hash == h;
            if rbf[i].inputs_hash != h {
                assert(up[i] == row);
            } else {
                assert(spec_has_rbf(rbf, h));
            }
        }
        if spec_has_rbf(rbf, h) {
            let i = choose|i: int| 0 <= i < rbf.len() && rbf[i].inputs_hash == h;
            if rbf[i].inputs_hash == row.inputs_hash {
                assert(up[i].inputs_hash == h);
            } else {
                assert(up[i].inputs_hash == h);
            }
        }
        if h == row.inputs_hash {
            let i = choose|i: int| 0 <= i < rbf.len() && rbf[i].inputs_hash == row.inputs_hash;
            assert(up[i] == row);
        }
    } else {
        if spec_has_rbf(up, h) && !spec_has_rbf(rbf, h) {
            let i = choose|i: int| 0 <= i < up.len() && up[i].inputs_hash == h;
            assert(i == rbf.len());
        }
        if spec_has_rbf(rbf, h) {
            let i = choose|i: int| 0 <= i < rbf.len() && rbf[i].inputs_hash == h;
            assert(up[i].inputs_hash == h);
        }
        assert(up[rbf.len() as int] == row);
    }
}

/// Writing the same transaction row twice is the same as writing it once:
/// the second write replaces the row with itself.
pub proof fn lemma_upsert_tx_idempotent(txs: Seq<TxRowView>, row: TxRowView)
    ensures
        spec_upsert_tx(spec_upsert_tx(txs, row), row) == spec_upsert_tx(txs, row),
{
    let s1 = spec_upsert_tx(txs, row);
    assert(spec_has_tx(s1, row.inputs_hash)) by {
        if spec_has_tx(txs, row.inputs_hash) {
            let i = choose|i: int| 0 <= i < txs.len() && txs[i].inputs_hash == row.inputs_hash;
            assert(s1[i] == row);
        } else {
            assert(s1[txs.len() as int] == row);
        }
    }
    assert forall|j: int| 0 <= j < s1.len() implies (if s1[j].inputs_hash == row.inputs_hash {
        row
    } else {
        s1[j]
    }) == s1[j] by {
        if s1[j].inputs_hash == row.inputs_hash {
            if spec_has_tx(txs, row.inputs_hash) {
                if j < txs.len() {
                    if txs[j].inputs_hash == row.inputs_hash {
                        assert(s1[j] == row);
                    } else {
                        assert(s1[j] == txs[j]);
                    }
                }
            } else {
                if j == txs.len() {
                    assert(s1[j] == row);
                } else {
                    assert(s1[j] == txs[j]);
                }
            }
        }
    }
    assert(spec_upsert_tx(s1, row) =~= s1);
}

/// Recording the same coinbase twice leaves the same single row that
/// recording it once leaves: the row is keyed, and in a well-formed store
/// the key names exactly one row.
pub proof fn lemma_record_coinbase_idempotent(txs: Seq<TxRowView>, t: TxView, now: u64)
    ensures
        spec_upsert_tx(
            spec_upsert_tx(txs, crate::store::spec_coinbase_row(t, now)),
            crate::store::spec_coinbase_row(t, now),
        ) == spec_upsert_tx(txs, crate::store::spec_coinbase_row(t, now)),
{
    lemma_upsert_tx_idempotent(txs, crate::store::spec_coinbase_row(t, now));
}


/// What `insert_mempool_tx` leaves in the transaction table.
pub open spec fn spec_insert_effect(
    txs: Seq<TxRowView>,
    t: TxView,
    found_at: Option<u64>,
    fee: u64,
    fee_rate: u64,
    now: u64,
) -> Seq<TxRowView> {
    spec_upsert_tx(
        spec_cpfp_mark(txs, t, spec_txid(t)),
        spec_new_mempool_row(txs, t, found_at, fee, fee_rate, now),
    )
}

/// Tables that agree on which of the spent ids are live agree on the
/// parent link.
proof fn lemma_parent_of_congruent(
    a: Seq<TxRowView>,
    b: Seq<TxRowView>,
    inputs: Seq<TxInputView>,
)
    requires
        forall|j: int|
            0 <= j < inputs.len() ==> spec_has_live_txid(
                a,
                (#[trigger] inputs[j]).previous_output.txid,
            ) == spec_has_live_txid(b, inputs[j].previous_output.txid),
    ensures
        spec_parent_of(a, inputs) == spec_parent_of(b, inputs),
    decreases inputs.len(),
{
    if inputs.len() > 0 {
        assert(inputs[0].previous_output.txid == inputs[0].previous_output.txid);
        assert forall|j: int| 0 <= j < inputs.drop_first().len() implies spec_has_live_txid(
            a,
            (#[trigger] inputs.drop_first()[j]).previous_output.txid,
        ) == spec_has_live_txid(b, inputs.drop_first()[j].previous_output.txid) by {
            assert(inputs.drop_first()[j] == inputs[j + 1]);
        }
        lemma_parent_of_congruent(a, b, inputs.drop_first());
    }
}

/// Inserting the same transaction twice, with the same arguments, leaves
/// the table a single insert leaves. The two side conditions rule out a
/// transaction that structurally spends an output of itself or of an
/// earlier round under its own inputs-hash - no real transaction can.
#[verifier::rlimit(100)]
pub proof fn lemma_insert_mempool_tx_idempotent(
    txs: Seq<TxRowView>,
    t: TxView,
    found_at: Option<u64>,
    fee: u64,
    fee_rate: u64,
    now: u64,
)
    requires
        spec_tx_keys_unique(txs),
        !spec_spends(t, spec_txid(t)),
        forall|i: int|
            0 <= i < txs.len() && (#[trigger] txs[i]).inputs_hash == spec_inputs_digest(t)
                ==> !spec_spends(t, txs[i].tx_id),
    ensures
        spec_insert_effect(
            spec_insert_effect(txs, t, found_at, fee, fee_rate, now),
            t,
            found_at,
            fee,
            fee_rate,
            now,
        ) == spec_insert_effect(txs, t, found_at, fee, fee_rate, now),
{
    let h = spec_inputs_digest(t);
    let child = spec_txid(t);
    let m0 = spec_cpfp_mark(txs, t, child);
    let r0 = spec_new_mempool_row(txs, t, found_at, fee, fee_rate, now);
    let s1 = spec_insert_effect(txs, t, found_at, fee, fee_rate, now);

    // Facts about the shape of the once-inserted table.
    assert(m0.len() == txs.len());
    assert(forall|j: int|
        0 <= j < m0.len() ==> (#[trigger] m0[j]).inputs_hash == txs[j].inputs_hash && m0[j].tx_id
            == txs[j].tx_id && m0[j].mined_at == txs[j].mined_at && m0[j].pruned_at
            == txs[j].pruned_at);
    let had = spec_has_tx(m0, h);

    // Marking the once-inserted table changes nothing: every row it would
    // touch is either the fresh row, whose id the transaction does not
    // spend, or a row the first pass already marked the same way.
    assert forall|j: int| 0 <= j < s1.len() implies (if spec_live(#[trigger] s1[j]) && spec_spends(
        t,
        s1[j].tx_id,
    ) {
        TxRowView { child_txid: Some(child), is_cpfp_parent: true, ..s1[j] }
    } else {
        s1[j]
    }) == s1[j] by {
        if had {
            if m0[j].inputs_hash == h {
                assert(s1[j] == r0);
                assert(!spec_spends(t, r0.tx_id));
            } else {
                assert(s1[j] == m0[j]);
                if spec_live(m0[j]) && spec_spends(t, m0[j].tx_id) {
                    assert(spec_live(txs[j]) && spec_spends(t, txs[j].tx_id));
                    assert(m0[j] == (TxRowView {
                        child_txid: Some(child),
                        is_cpfp_parent: true,
                        ..txs[j]
                    }));
                    assert((TxRowView {
                        child_txid: Some(child),
                        is_cpfp_parent: true,
                        ..m0[j]
                    }) =~= m0[j]);
                }
            }
        } else {
            if j == s1.len() - 1 {
                assert(s1[j] == r0);
                assert(!spec_spends(t, r0.tx_id));
            } else {
                assert(s1[j] == m0[j]);
                if spec_live(m0[j]) && spec_spends(t, m0[j].tx_id) {
                    assert(spec_live(txs[j]) && spec_spends(t, txs[j].tx_id));
                    assert(m0[j] == (TxRowView {
                        child_txid: Some(child),
                        is_cpfp_parent: true,
                        ..txs[j]
                    }));
                    assert((TxRowView {
                        child_txid: Some(child),
                        is_cpfp_parent: true,
                        ..m0[j]
                    }) =~= m0[j]);
                }
            }
        }
    }
    assert(spec_cpfp_mark(s1, t, child) =~= s1);

    // The ids spent by the transaction are live in the once-inserted table
    // exactly when they are live in the original one: the fresh row's id is
    // not spent, and neither was the id of the row it replaced.
    assert forall|j: int| 0 <= j < t.inputs.len() implies spec_has_live_txid(
        s1,
        (#[trigger] t.inputs[j]).previous_output.txid,
    ) == spec_has_live_txid(txs, t.inputs[j].previous_output.txid) by {
        let y = t.inputs[j].previous_output.txid;
        assert(spec_spends(t, y));
        assert(y != child);
        if spec_has_live_txid(txs, y) {
            let i = choose|i: int| 0 <= i < txs.len() && spec_live(txs[i]) && txs[i].tx_id == y;
            assert(txs[i].inputs_hash != h);
            if had {
                assert(s1[i] == m0[i]);
            } else {
                assert(s1[i] == m0[i]);
            }
            assert(spec_live(s1[i]) && s1[i].tx_id == y);
        }
        if spec_has_live_txid(s1, y) {
            let i = choose|i: int| 0 <= i < s1.len() && spec_live(s1[i]) && s1[i].tx_id == y;
            if had {
                if m0[i].inputs_hash == h {
                    assert(s1[i] == r0);
                    assert(false);
                } else {
                    assert(s1[i] == m0[i]);
                    assert(spec_live(txs[i]) && txs[i].tx_id == y);
                }
            } else {
                if i == s1.len() - 1 {
                    assert(s1[i] == r0);
                    assert(false);
                } else {
                    assert(s1[i] == m0[i]);
                    assert(spec_live(txs[i]) && txs[i].tx_id == y);
                }
            }
        }
    }
    lemma_parent_of_congruent(s1, txs, t.inputs);
    let r1 = spec_new_mempool_row(s1, t, found_at, fee, fee_rate, now);
    assert(r1 =~= r0);

    lemma_upsert_tx_idempotent(m0, r0);
    assert(spec_insert_effect(s1, t, found_at, fee, fee_rate, now) == spec_upsert_tx(s1, r0));
}

} // verus!
