//! The consensus byte encoding of transactions: the base (witness-stripped)
//! form, the extended form with marker, flag and witness data, and the
//! weight derived from the two.

use vstd::prelude::*;

use crate::bytes::{
    push_bytes, push_le4, push_le8, push_varint, spec_le4, spec_le8, spec_varint,
};
use crate::tx::{Tx, TxInput, TxInputView, TxOutput, TxOutputView, TxView};

verus! {

/// Encoding of an outpoint: the 32-byte txid, then the index in four
/// little-endian bytes.
pub open spec fn spec_enc_outpoint(txid: Seq<u8>, vout: u32) -> Seq<u8> {
    txid + spec_le4(vout)
}

/// Base encoding of one input: outpoint, script length, script, sequence.
/// The witness is not part of it.
pub open spec fn spec_enc_input(i: TxInputView) -> Seq<u8> {
    spec_enc_outpoint(i.previous_output.txid, i.previous_output.vout)
        + spec_varint(i.script_sig.len() as u64) + i.script_sig + spec_le4(i.sequence)
}

/// Concatenated base encodings of the inputs, in order.
pub open spec fn spec_enc_inputs(s: Seq<TxInputView>) -> Seq<u8>
    decreases s.len(),
{
    if s.len() == 0 {
        Seq::empty()
    } else {
        spec_enc_inputs(s.drop_last()) + spec_enc_input(s.last())
    }
}

/// Encoding of one output: value in eight little-endian bytes, script
/// length, script.
pub open spec fn spec_enc_output(o: TxOutputView) -> Seq<u8> {
    spec_le8(o.value) + spec_varint(o.script_pubkey.len() as u64) + o.script_pubkey
}

/// Concatenated encodings of the outputs, in order.
pub open spec fn spec_enc_outputs(s: Seq<TxOutputView>) -> Seq<u8>
    decreases s.len(),
{
    if s.len() == 0 {
        Seq::empty()
    } else {
        spec_enc_outputs(s.drop_last()) + spec_enc_output(s.last())
    }
}

/// Encoding of one witness stack: item count, then each item with its
/// length prefix.
pub open spec fn spec_enc_witness_items(w: Seq<Seq<u8>>) -> Seq<u8>
    decreases w.len(),
{
    if w.len() == 0 {
        Seq::empty()
    } else {
        spec_enc_witness_items(w.drop_last()) + spec_varint(w.last().len() as u64) + w.last()
    }
}

/// Encoding of the witness stack of one input.
pub open spec fn spec_enc_witness(w: Seq<Seq<u8>>) -> Seq<u8> {
    spec_varint(w.len() as u64) + spec_enc_witness_items(w)
}

/// Concatenated witness encodings of the inputs, in order.
pub open spec fn spec_enc_witnesses(s: Seq<TxInputView>) -> Seq<u8>
    decreases s.len(),
{
    if s.len() == 0 {
        Seq::empty()
    } else {
        spec_enc_witnesses(s.drop_last()) + spec_enc_witness(s.last().witness)
    }
}

/// Whether the extended serialization is used: some input carries a witness,
/// or there are no inputs at all (the empty input count would otherwise be
/// read as the extension marker).
pub open spec fn spec_uses_extended(t: TxView) -> bool {
    (exists|i: int| 0 <= i < t.inputs.len() && (#[trigger] t.inputs[i]).witness.len() > 0)
        || t.inputs.len() == 0
}

/// The base encoding: version, inputs, outputs, lock time. Witness data is
/// stripped. Transaction ids are computed over this form.
pub open spec fn spec_enc_tx_base(t: TxView) -> Seq<u8> {
    spec_le4(t.version) + spec_varint(t.inputs.len() as u64) + spec_enc_inputs(t.inputs)
        + spec_varint(t.outputs.len() as u64) + spec_enc_outputs(t.outputs) + spec_le4(t.lock_time)
}

/// The full encoding: the base form, or the extended form with the
/// marker byte 0x00, the flag byte 0x01 and the witness section.
pub open spec fn spec_enc_tx(t: TxView) -> Seq<u8> {
    if spec_uses_extended(t) {
        spec_le4(t.version) + seq![0x00u8, 0x01u8] + spec_varint(t.inputs.len() as u64)
            + spec_enc_inputs(t.inputs) + spec_varint(t.outputs.len() as u64)
            + spec_enc_outputs(t.outputs) + spec_enc_witnesses(t.inputs) + spec_le4(t.lock_time)
    } else {
        spec_enc_tx_base(t)
    }
}

/// Appends the base encoding of one input.
fn push_input(out: &mut Vec<u8>, i: &TxInput)
    ensures
        final(out)@ == old(out)@ + spec_enc_input(i@),
{
    push_bytes(out, &i.previous_output.txid);
    push_le4(out, i.previous_output.vout);
    push_varint(out, i.script_sig.len() as u64);
    push_bytes(out, &i.script_sig);
    push_le4(out, i.sequence);
    proof {
        assert(out@ =~= old(out)@ + spec_enc_input(i@));
    }
}

/// Appends the encoding of one output.
fn push_output(out: &mut Vec<u8>, o: &TxOutput)
    ensures
        final(out)@ == old(out)@ + spec_enc_output(o@),
{
    push_le8(out, o.value);
    push_varint(out, o.script_pubkey.len() as u64);
    push_bytes(out, &o.script_pubkey);
    proof {
        assert(out@ =~= old(out)@ + spec_enc_output(o@));
    }
}

/// Appends the base encodings of all inputs, in order.
pub(crate) fn push_inputs(out: &mut Vec<u8>, inputs: &Vec<TxInput>)
    ensures
        final(out)@ == old(out)@ + spec_enc_inputs(inputs@.map_values(|i: TxInput| i@)),
{
    let ghost ivs = inputs@.map_values(|i: TxInput| i@);
    let mut k: usize = 0;
    while k < inputs.len()
        invariant
            k <= inputs.len(),
            ivs == inputs@.map_values(|i: TxInput| i@),
            out@ == old(out)@ + spec_enc_inputs(ivs.subrange(0, k as int)),
        decreases inputs.len() - k,
    {
        push_input(out, &inputs[k]);
        k = k + 1;
        proof {
            assert(ivs.subrange(0, k as int).drop_last() =~= ivs.subrange(0, k - 1));
            assert(ivs.subrange(0, k as int).last() == ivs[k - 1]);
            assert(out@ =~= old(out)@ + spec_enc_inputs(ivs.subrange(0, k as int)));
        }
    }
    proof {
        assert(ivs.subrange(0, ivs.len() as int) =~= ivs);
    }
}

/// Appends the encodings of all outputs, in order.
fn push_outputs(out: &mut Vec<u8>, outputs: &Vec<TxOutput>)
    ensures
        final(out)@ == old(out)@ + spec_enc_outputs(outputs@.map_values(|o: TxOutput| o@)),
{
    let ghost ovs = outputs@.map_values(|o: TxOutput| o@);
    let mut k: usize = 0;
    while k < outputs.len()
        invariant
            k <= outputs.len(),
            ovs == outputs@.map_values(|o: TxOutput| o@),
            out@ == old(out)@ + spec_enc_outputs(ovs.subrange(0, k as int)),
        decreases outputs.len() - k,
    {
        push_output(out, &outputs[k]);
        k = k + 1;
        proof {
            assert(ovs.subrange(0, k as int).drop_last() =~= ovs.subrange(0, k - 1));
            assert(ovs.subrange(0, k as int).last() == ovs[k - 1]);
            assert(out@ =~= old(out)@ + spec_enc_outputs(ovs.subrange(0, k as int)));
        }
    }
    proof {
        assert(ovs.subrange(0, ovs.len() as int) =~= ovs);
    }
}

/// Appends the witness stack of one input.
fn push_witness(out: &mut Vec<u8>, w: &Vec<Vec<u8>>)
    ensures
        final(out)@ == old(out)@ + spec_enc_witness(w@.map_values(|x: Vec<u8>| x@)),
{
    let ghost wvs = w@.map_values(|x: Vec<u8>| x@);
    push_varint(out, w.len() as u64);
    let mut k: usize = 0;
    while k < w.len()
        invariant
            k <= w.len(),
            wvs == w@.map_values(|x: Vec<u8>| x@),
            out@ == old(out)@ + spec_varint(wvs.len() as u64) + spec_enc_witness_items(
                wvs.subrange(0, k as int),
            ),
        decreases w.len() - k,
    {
        push_varint(out, w[k].len() as u64);
        push_bytes(out, &w[k]);
        k = k + 1;
        proof {
            assert(wvs.subrange(0, k as int).drop_last() =~= wvs.subrange(0, k - 1));
            assert(wvs.subrange(0, k as int).last() == wvs[k - 1]);
            assert(out@ =~= old(out)@ + spec_varint(wvs.len() as u64) + spec_enc_witness_items(
                wvs.subrange(0, k as int),
            ));
        }
    }
    proof {
        assert(wvs.subrange(0, wvs.len() as int) =~= wvs);
    }
}

/// Appends the witness section: one stack per input, in order.
fn push_witnesses(out: &mut Vec<u8>, inputs: &Vec<TxInput>)
    ensures
        final(out)@ == old(out)@ + spec_enc_witnesses(inputs@.map_values(|i: TxInput| i@)),
{
    let ghost ivs = inputs@.map_values(|i: TxInput| i@);
    let mut k: usize = 0;
    while k < inputs.len()
        invariant
            k <= inputs.len(),
            ivs == inputs@.map_values(|i: TxInput| i@),
            out@ == old(out)@ + spec_enc_witnesses(ivs.subrange(0, k as int)),
        decreases inputs.len() - k,
    {
        push_witness(out, &inputs[k].witness);
        k = k + 1;
        proof {
            assert(ivs.subrange(0, k as int).drop_last() =~= ivs.subrange(0, k - 1));
            assert(ivs.subrange(0, k as int).last() == ivs[k - 1]);
            assert(out@ =~= old(out)@ + spec_enc_witnesses(ivs.subrange(0, k as int)));
        }
    }
    proof {
        assert(ivs.subrange(0, ivs.len() as int) =~= ivs);
    }
}

/// True when the full encoding of `tx` uses the extended form.
pub fn uses_extended(tx: &Tx) -> (r: bool)
    ensures
        r == spec_uses_extended(tx@),
{
    if tx.inputs.len() == 0 {
        return true;
    }
    let mut k: usize = 0;
    while k < tx.inputs.len()
        invariant
            k <= tx.inputs.len(),
            forall|i: int| 0 <= i < k ==> (#[trigger] tx.inputs@[i])@.witness.len() == 0,
        decreases tx.inputs.len() - k,
    {
        if tx.inputs[k].witness.len() > 0 {
            proof {
                assert(tx@.inputs[k as int].witness.len() > 0);
            }
            return true;
        }
        k = k + 1;
    }
    proof {
        assert(forall|i: int|
            0 <= i < tx@.inputs.len() ==> (#[trigger] tx@.inputs[i]).witness.len() == 0);
    }
    false
}

/// The base encoding of `tx`: witness data stripped.
pub fn encode_tx_base(tx: &Tx) -> (r: Vec<u8>)
    ensures
        r@ == spec_enc_tx_base(tx@),
{
    let mut out: Vec<u8> = Vec::new();
    push_le4(&mut out, tx.version);
    push_varint(&mut out, tx.inputs.len() as u64);
    push_inputs(&mut out, &tx.inputs);
    push_varint(&mut out, tx.outputs.len() as u64);
    push_outputs(&mut out, &tx.outputs);
    push_le4(&mut out, tx.lock_time);
    proof {
        assert(out@ =~= spec_enc_tx_base(tx@));
    }
    out
}

/// The full encoding of `tx`: the form a node relays on the wire.
pub fn encode_tx(tx: &Tx) -> (r: Vec<u8>)
    ensures
        r@ == spec_enc_tx(tx@),
{
    if !uses_extended(tx) {
        return encode_tx_base(tx);
    }
    let mut out: Vec<u8> = Vec::new();
    push_le4(&mut out, tx.version);
    out.push(0x00);
    out.push(0x01);
    push_varint(&mut out, tx.inputs.len() as u64);
    push_inputs(&mut out, &tx.inputs);
    push_varint(&mut out, tx.outputs.len() as u64);
    push_outputs(&mut out, &tx.outputs);
    push_witnesses(&mut out, &tx.inputs);
    push_le4(&mut out, tx.lock_time);
    proof {
        assert(out@ =~= spec_enc_tx(tx@));
    }
    out
}

/// The weight of `t`: three times the base size plus the total size, as
/// defined for fee-rate purposes.
#[verifier::opaque]
pub open spec fn spec_weight(t: TxView) -> nat {
    3 * spec_enc_tx_base(t).len() + spec_enc_tx(t).len()
}

/// The weight of `tx`, or `None` when it exceeds `u64`.
pub fn tx_weight(tx: &Tx) -> (r: Option<u64>)
    ensures
        r is Some ==> r->Some_0 == spec_weight(tx@),
        r is None ==> spec_weight(tx@) > u64::MAX,
{
    proof {
        reveal(spec_weight);
    }
    let base = encode_tx_base(tx);
    let total = encode_tx(tx);
    let base_len = base.len() as u64;
    let total_len = total.len() as u64;
    if base_len <= (u64::MAX - total_len) / 3 {
        Some(3 * base_len + total_len)
    } else {
        None
    }
}


/// Input sequences that agree on outpoints, scripts and sequence numbers
/// have the same base encoding: the witness never enters it.
pub proof fn lemma_enc_inputs_congruent(a: Seq<TxInputView>, b: Seq<TxInputView>)
    requires
        a.len() == b.len(),
        forall|i: int|
            0 <= i < a.len() ==> (#[trigger] a[i]).previous_output == (
            #[trigger] b[i]).previous_output && a[i].script_sig == b[i].script_sig
                && a[i].sequence == b[i].sequence,
    ensures
        spec_enc_inputs(a) == spec_enc_inputs(b),
    decreases a.len(),
{
    if a.len() > 0 {
        lemma_enc_inputs_congruent(a.drop_last(), b.drop_last());
        assert(spec_enc_input(a.last()) == spec_enc_input(b.last()));
    }
}

/// Clearing witnesses changes neither the base encoding nor, for a
/// transaction with inputs, the full encoding: with every witness empty the
/// base form is used.
pub proof fn lemma_enc_prune(t: TxView)
    ensures
        spec_enc_tx_base(crate::tx::spec_prune_witnesses(t)) == spec_enc_tx_base(t),
        spec_enc_inputs(crate::tx::spec_prune_witnesses(t).inputs) == spec_enc_inputs(t.inputs),
        t.inputs.len() > 0 ==> spec_enc_tx(crate::tx::spec_prune_witnesses(t))
            == spec_enc_tx_base(t),
        t.inputs.len() == 0 ==> spec_enc_tx(crate::tx::spec_prune_witnesses(t)) == spec_enc_tx(t),
{
    let p = crate::tx::spec_prune_witnesses(t);
    assert(p.inputs.len() == t.inputs.len());
    assert(forall|i: int|
        0 <= i < p.inputs.len() ==> (#[trigger] p.inputs[i]).previous_output == (
        #[trigger] t.inputs[i]).previous_output && p.inputs[i].script_sig
            == t.inputs[i].script_sig && p.inputs[i].sequence == t.inputs[i].sequence);
    lemma_enc_inputs_congruent(p.inputs, t.inputs);
    assert(p.outputs == t.outputs);
    if t.inputs.len() > 0 {
        assert(forall|i: int|
            0 <= i < p.inputs.len() ==> (#[trigger] p.inputs[i]).witness.len() == 0);
        assert(!spec_uses_extended(p));
    } else {
        assert(p.inputs =~= t.inputs);
        assert(p =~= t);
    }
}
} // verus!

