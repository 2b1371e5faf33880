//! Fee arithmetic: the absolute fee from resolved previous outputs, and the
//! fee rate in satoshis per virtual byte.

use vstd::prelude::*;

use crate::encode::spec_weight;
use crate::encode::tx_weight;
use crate::tx::{spec_is_coinbase, spec_outpoint_is_null, Tx, TxInputView, TxView};

verus! {

/// Ceiling of `weight / 4`: the virtual size used as the fee-rate denominator.
pub open spec fn spec_vbytes(weight: nat) -> nat {
    (weight + 3) / 4
}

/// Virtual size of a transaction from its weight, rounding up.
pub fn vbytes_of_weight(weight: u64) -> (r: u64)
    requires
        weight <= u64::MAX - 3,
    ensures
        r == spec_vbytes(weight as nat),
{
    (weight + 3) / 4
}

/// How many inputs of `s` spend a real outpoint. Only those need their
/// previous output resolved.
pub open spec fn spec_nonnull_count(s: Seq<TxInputView>) -> nat
    decreases s.len(),
{
    if s.len() == 0 {
        0
    } else {
        spec_nonnull_count(s.drop_last()) + if spec_outpoint_is_null(
            s.last().previous_output,
        ) {
            0nat
        } else {
            1nat
        }
    }
}

/// Sum of a sequence of satoshi amounts, as an unbounded integer.
pub open spec fn spec_sum(s: Seq<u64>) -> int
    decreases s.len(),
{
    if s.len() == 0 {
        0
    } else {
        spec_sum(s.drop_last()) + s.last()
    }
}

/// Sum of the output values of `t`, as an unbounded integer.
pub open spec fn spec_output_total(t: TxView) -> int
    decreases t.outputs.len(),
{
    spec_sum_outputs(t.outputs)
}

/// Sum of the values of a sequence of outputs.
pub open spec fn spec_sum_outputs(s: Seq<crate::tx::TxOutputView>) -> int
    decreases s.len(),
{
    if s.len() == 0 {
        0
    } else {
        spec_sum_outputs(s.drop_last()) + s.last().value
    }
}

/// The outpoints the fee resolver must look up: one for every input that
/// spends a real outpoint, in input order. Each entry is the 32-byte id of
/// the funding transaction and the output index in it.
pub fn prevouts_to_fetch(tx: &Tx) -> (r: Vec<(Vec<u8>, u32)>)
    ensures
        r@.len() == spec_nonnull_count(tx@.inputs),
{
    let mut out: Vec<(Vec<u8>, u32)> = Vec::new();
    let mut i: usize = 0;
    while i < tx.inputs.len()
        invariant
            i <= tx.inputs.len(),
            out@.len() == spec_nonnull_count(tx@.inputs.subrange(0, i as int)),
        decreases tx.inputs.len() - i,
    {
        let ghost pre = tx@.inputs.subrange(0, i as int);
        if !crate::tx::outpoint_is_null(&tx.inputs[i].previous_output) {
            let mut txid_copy: Vec<u8> = Vec::new();
            crate::bytes::push_bytes(&mut txid_copy, &tx.inputs[i].previous_output.txid);
            out.push((txid_copy, tx.inputs[i].previous_output.vout));
        }
        i = i + 1;
        proof {
            assert(tx@.inputs.subrange(0, i as int).drop_last() =~= pre);
            assert(tx@.inputs.subrange(0, i as int).last() == tx@.inputs[i - 1]);
        }
    }
    proof {
        assert(tx@.inputs.subrange(0, tx@.inputs.len() as int) =~= tx@.inputs);
    }
    out
}

/// The absolute fee of `tx` given the resolved value of every real
/// previous output, in input order.
///
/// Returns the input total minus the output total. A coinbase pays no fee.
/// `None` when the caller supplied the wrong number of values, when the
/// input total exceeds `u64::MAX`, or when the difference would be negative
/// - a valid mempool transaction never has a negative fee, so that case is
/// surfaced as an error.
pub fn get_absolute_fee(tx: &Tx, prevout_values: &Vec<u64>) -> (r: Option<u64>)
    ensures
        spec_is_coinbase(tx@) ==> r == Some(0u64),
        !spec_is_coinbase(tx@) ==> {
            let ok = prevout_values@.len() == spec_nonnull_count(tx@.inputs) && spec_sum(
                prevout_values@,
            ) <= u64::MAX && spec_output_total(tx@) <= spec_sum(prevout_values@);
            if ok {
                r == Some((spec_sum(prevout_values@) - spec_output_total(tx@)) as u64)
            } else {
                r is None
            }
        },
{
    if tx.is_coinbase() {
        return Some(0);
    }
    let needed = count_nonnull(tx);
    if prevout_values.len() != needed {
        return None;
    }
    let mut input_total: u64 = 0;
    let mut i: usize = 0;
    while i < prevout_values.len()
        invariant
            i <= prevout_values.len(),
            !spec_is_coinbase(tx@),
            prevout_values@.len() == spec_nonnull_count(tx@.inputs),
            input_total == spec_sum(prevout_values@.subrange(0, i as int)),
        decreases prevout_values.len() - i,
    {
        let ghost pre = prevout_values@.subrange(0, i as int);
        let v = prevout_values[i];
        proof {
            assert(prevout_values@.subrange(0, i + 1).drop_last() =~= pre);
            assert(prevout_values@.subrange(0, i + 1).last() == v);
        }
        if v > u64::MAX - input_total {
            proof {
                lemma_sum_prefix_le(prevout_values@, i + 1);
            }
            return None;
        }
        input_total = input_total + v;
        i = i + 1;
    }
    proof {
        assert(prevout_values@.subrange(0, prevout_values@.len() as int) =~= prevout_values@);
    }
    let mut output_total: u64 = 0;
    let mut k: usize = 0;
    while k < tx.outputs.len()
        invariant
            k <= tx.outputs.len(),
            !spec_is_coinbase(tx@),
            prevout_values@.len() == spec_nonnull_count(tx@.inputs),
            input_total == spec_sum(prevout_values@),
            spec_sum(prevout_values@) <= u64::MAX,
            output_total == spec_sum_outputs(tx@.outputs.subrange(0, k as int)),
            output_total <= input_total,
        decreases tx.outputs.len() - k,
    {
        let ghost pre = tx@.outputs.subrange(0, k as int);
        let v = tx.outputs[k].value;
        proof {
            assert(tx@.outputs.subrange(0, k + 1).drop_last() =~= pre);
            assert(tx@.outputs.subrange(0, k + 1).last() == tx@.outputs[k as int]);
        }
        if v > u64::MAX - output_total {
            proof {
                lemma_sum_outputs_prefix_le(tx@.outputs, k + 1);
            }
            return None;
        }
        output_total = output_total + v;
        if output_total > input_total {
            proof {
                lemma_sum_outputs_prefix_le(tx@.outputs, k + 1);
            }
            return None;
        }
        k = k + 1;
    }
    proof {
        assert(tx@.outputs.subrange(0, tx@.outputs.len() as int) =~= tx@.outputs);
    }
    Some(input_total - output_total)
}

/// A prefix sum of output values is at most the full sum: values are
/// non-negative.
proof fn lemma_sum_outputs_prefix_le(s: Seq<crate::tx::TxOutputView>, k: int)
    requires
        0 <= k <= s.len(),
    ensures
        spec_sum_outputs(s.subrange(0, k)) <= spec_sum_outputs(s),
    decreases s.len() - k,
{
    if k == s.len() {
        assert(s.subrange(0, k) =~= s);
    } else {
        lemma_sum_outputs_prefix_le(s, k + 1);
        assert(s.subrange(0, k + 1).drop_last() =~= s.subrange(0, k));
        assert(s.subrange(0, k + 1).last() == s[k]);
    }
}

/// A prefix sum of satoshi amounts is at most the full sum.
proof fn lemma_sum_prefix_le(s: Seq<u64>, k: int)
    requires
        0 <= k <= s.len(),
    ensures
        spec_sum(s.subrange(0, k)) <= spec_sum(s),
    decreases s.len() - k,
{
    if k == s.len() {
        assert(s.subrange(0, k) =~= s);
    } else {
        lemma_sum_prefix_le(s, k + 1);
        assert(s.subrange(0, k + 1).drop_last() =~= s.subrange(0, k));
        assert(s.subrange(0, k + 1).last() == s[k]);
    }
}

/// Counts the inputs that spend a real outpoint.
fn count_nonnull(tx: &Tx) -> (r: usize)
    ensures
        r == spec_nonnull_count(tx@.inputs),
{
    let mut n: usize = 0;
    let mut i: usize = 0;
    while i < tx.inputs.len()
        invariant
            i <= tx.inputs.len(),
            n <= i,
            n == spec_nonnull_count(tx@.inputs.subrange(0, i as int)),
        decreases tx.inputs.len() - i,
    {
        let ghost pre = tx@.inputs.subrange(0, i as int);
        if !crate::tx::outpoint_is_null(&tx.inputs[i].previous_output) {
            n = n + 1;
        }
        i = i + 1;
        proof {
            assert(tx@.inputs.subrange(0, i as int).drop_last() =~= pre);
            assert(tx@.inputs.subrange(0, i as int).last() == tx@.inputs[i - 1]);
        }
    }
    proof {
        assert(tx@.inputs.subrange(0, tx@.inputs.len() as int) =~= tx@.inputs);
    }
    n
}

/// The fee rate of `t` for an absolute fee: satoshis per virtual byte,
/// rounded down. Zero for a coinbase, and zero when the transaction is so
/// degenerate that it has no virtual size.
pub open spec fn spec_fee_rate(t: TxView, fee: u64) -> nat {
    if spec_is_coinbase(t) {
        0
    } else if spec_vbytes(spec_weight(t)) == 0 {
        0
    } else {
        (fee as nat) / spec_vbytes(spec_weight(t))
    }
}

/// Computes the fee rate of `tx` in satoshis per virtual byte, rounded
/// down. `None` only when the weight cannot be represented.
pub fn compute_fee_rate(tx: &Tx, fee: u64) -> (r: Option<u64>)
    ensures
        r is Some ==> r->Some_0 == spec_fee_rate(tx@, fee),
        r is None ==> !spec_is_coinbase(tx@) && spec_weight(tx@) > u64::MAX - 3,
        !spec_is_coinbase(tx@) && r is Some ==> spec_weight(tx@) <= u64::MAX - 3,
{
    if tx.is_coinbase() {
        return Some(0);
    }
    let w = match tx_weight(tx) {
        Some(w) => w,
        None => {
            return None;
        },
    };
    if w > u64::MAX - 3 {
        return None;
    }
    let vb = vbytes_of_weight(w);
    if vb == 0 {
        Some(0)
    } else {
        Some(fee / vb)
    }
}

} // verus!
