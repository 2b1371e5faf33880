//! Decoding the consensus byte form back into a transaction, and the proof
//! that decoding inverts encoding.

use vstd::prelude::*;

use crate::bytes::{
    spec_le2, spec_le2_val, spec_le4, spec_le4_val, spec_le8, spec_le8_val, spec_varint,
};
use crate::encode::{
    spec_enc_input, spec_enc_inputs, spec_enc_output, spec_enc_outputs, spec_enc_tx,
    spec_enc_witness, spec_enc_witness_items, spec_enc_witnesses, spec_uses_extended,
};
use crate::tx::{OutPoint, OutPointView, Tx, TxInput, TxInputView, TxOutput, TxOutputView, TxView};

verus! {

/// Reads one byte.
pub open spec fn spec_dec_u8(b: Seq<u8>, p: int) -> Option<(u8, int)> {
    if 0 <= p && p + 1 <= b.len() {
        Some((b[p], p + 1))
    } else {
        None
    }
}

/// Reads a two-byte little-endian integer.
pub open spec fn spec_dec_le2(b: Seq<u8>, p: int) -> Option<(u16, int)> {
    if 0 <= p && p + 2 <= b.len() {
        Some((spec_le2_val(b.subrange(p, p + 2)) as u16, p + 2))
    } else {
        None
    }
}

/// Reads a four-byte little-endian integer.
pub open spec fn spec_dec_le4(b: Seq<u8>, p: int) -> Option<(u32, int)> {
    if 0 <= p && p + 4 <= b.len() {
        Some((spec_le4_val(b.subrange(p, p + 4)) as u32, p + 4))
    } else {
        None
    }
}

/// Reads an eight-byte little-endian integer.
pub open spec fn spec_dec_le8(b: Seq<u8>, p: int) -> Option<(u64, int)> {
    if 0 <= p && p + 8 <= b.len() {
        Some((spec_le8_val(b.subrange(p, p + 8)) as u64, p + 8))
    } else {
        None
    }
}

/// Reads a compact-size integer, insisting on the minimal encoding, as the
/// consensus decoder does.
#[verifier::opaque]
pub open spec fn spec_dec_varint(b: Seq<u8>, p: int) -> Option<(u64, int)> {
    match spec_dec_u8(b, p) {
        None => None,
        Some((tag, p1)) => if tag < 0xFD {
            Some((tag as u64, p1))
        } else if tag == 0xFD {
            match spec_dec_le2(b, p1) {
                None => None,
                Some((v, p2)) => if v >= 0xFD {
                    Some((v as u64, p2))
                } else {
                    None
                },
            }
        } else if tag == 0xFE {
            match spec_dec_le4(b, p1) {
                None => None,
                Some((v, p2)) => if v > 0xFFFF {
                    Some((v as u64, p2))
                } else {
                    None
                },
            }
        } else {
            match spec_dec_le8(b, p1) {
                None => None,
                Some((v, p2)) => if v > 0xFFFFFFFF {
                    Some((v, p2))
                } else {
                    None
                },
            }
        },
    }
}

/// Reads `n` raw bytes.
pub open spec fn spec_dec_bytes(b: Seq<u8>, p: int, n: int) -> Option<(Seq<u8>, int)> {
    if 0 <= p && 0 <= n && p + n <= b.len() {
        Some((b.subrange(p, p + n), p + n))
    } else {
        None
    }
}

/// Reads one input in base form: outpoint, script, sequence; no witness.
#[verifier::opaque]
pub open spec fn spec_dec_input(b: Seq<u8>, p: int) -> Option<(TxInputView, int)> {
    match spec_dec_bytes(b, p, 32) {
        None => None,
        Some((txid, p1)) => match spec_dec_le4(b, p1) {
            None => None,
            Some((vout, p2)) => match spec_dec_varint(b, p2) {
                None => None,
                Some((slen, p3)) => match spec_dec_bytes(b, p3, slen as int) {
                    None => None,
                    Some((script, p4)) => match spec_dec_le4(b, p4) {
                        None => None,
                        Some((seqno, p5)) => Some(
                            (
                                TxInputView {
                                    previous_output: OutPointView { txid: txid, vout: vout },
                                    script_sig: script,
                                    sequence: seqno,
                                    witness: Seq::empty(),
                                },
                                p5,
                            ),
                        ),
                    },
                },
            },
        },
    }
}

/// Reads `n` inputs.
pub open spec fn spec_dec_inputs(b: Seq<u8>, p: int, n: nat) -> Option<(Seq<TxInputView>, int)>
    decreases n,
{
    if n == 0 {
        Some((Seq::empty(), p))
    } else {
        match spec_dec_input(b, p) {
            None => None,
            Some((i, p1)) => match spec_dec_inputs(b, p1, (n - 1) as nat) {
                None => None,
                Some((rest, p2)) => Some((seq![i] + rest, p2)),
            },
        }
    }
}

/// Reads one output: value, script.
#[verifier::opaque]
pub open spec fn spec_dec_output(b: Seq<u8>, p: int) -> Option<(TxOutputView, int)> {
    match spec_dec_le8(b, p) {
        None => None,
        Some((value, p1)) => match spec_dec_varint(b, p1) {
            None => None,
            Some((slen, p2)) => match spec_dec_bytes(b, p2, slen as int) {
                None => None,
                Some((script, p3)) => Some(
                    (TxOutputView { value: value, script_pubkey: script }, p3),
                ),
            },
        },
    }
}

/// Reads `n` outputs.
pub open spec fn spec_dec_outputs(b: Seq<u8>, p: int, n: nat) -> Option<(Seq<TxOutputView>, int)>
    decreases n,
{
    if n == 0 {
        Some((Seq::empty(), p))
    } else {
        match spec_dec_output(b, p) {
            None => None,
            Some((o, p1)) => match spec_dec_outputs(b, p1, (n - 1) as nat) {
                None => None,
                Some((rest, p2)) => Some((seq![o] + rest, p2)),
            },
        }
    }
}

/// Reads `n` witness items, each a length-prefixed byte string.
pub open spec fn spec_dec_witness_items(b: Seq<u8>, p: int, n: nat) -> Option<(Seq<Seq<u8>>, int)>
    decreases n,
{
    if n == 0 {
        Some((Seq::empty(), p))
    } else {
        match spec_dec_varint(b, p) {
            None => None,
            Some((ilen, p1)) => match spec_dec_bytes(b, p1, ilen as int) {
                None => None,
                Some((item, p2)) => match spec_dec_witness_items(b, p2, (n - 1) as nat) {
                    None => None,
                    Some((rest, p3)) => Some((seq![item] + rest, p3)),
                },
            },
        }
    }
}

/// Reads one witness stack: item count, then the items.
pub open spec fn spec_dec_witness(b: Seq<u8>, p: int) -> Option<(Seq<Seq<u8>>, int)> {
    match spec_dec_varint(b, p) {
        None => None,
        Some((n, p1)) => spec_dec_witness_items(b, p1, n as nat),
    }
}

/// Reads `n` witness stacks.
pub open spec fn spec_dec_witnesses(b: Seq<u8>, p: int, n: nat) -> Option<
    (Seq<Seq<Seq<u8>>>, int),
>
    decreases n,
{
    if n == 0 {
        Some((Seq::empty(), p))
    } else {
        match spec_dec_witness(b, p) {
            None => None,
            Some((w, p1)) => match spec_dec_witnesses(b, p1, (n - 1) as nat) {
                None => None,
                Some((rest, p2)) => Some((seq![w] + rest, p2)),
            },
        }
    }
}

/// Each input given its witness stack.
pub open spec fn spec_attach_witnesses(
    inputs: Seq<TxInputView>,
    ws: Seq<Seq<Seq<u8>>>,
) -> Seq<TxInputView> {
    inputs.map(|idx: int, i: TxInputView| TxInputView { witness: ws[idx], ..i })
}

/// Decoding a whole transaction. The byte form must be consumed exactly.
///
/// After the version, an input count of zero announces the extended form:
/// a flag byte of one, then the real input and output lists, one witness
/// stack per input, and the lock time. The extended form with every witness
/// stack empty is rejected, as the consensus decoder rejects it. Any other
/// input count announces the base form.
pub open spec fn spec_dec_tx(b: Seq<u8>) -> Option<TxView> {
    match spec_dec_le4(b, 0) {
        None => None,
        Some((version, p1)) => match spec_dec_varint(b, p1) {
            None => None,
            Some((n_in, p2)) => if n_in > 0 {
                // Base form.
                match spec_dec_inputs(b, p2, n_in as nat) {
                    None => None,
                    Some((inputs, p3)) => match spec_dec_varint(b, p3) {
                        None => None,
                        Some((n_out, p4)) => match spec_dec_outputs(b, p4, n_out as nat) {
                            None => None,
                            Some((outputs, p5)) => match spec_dec_le4(b, p5) {
                                None => None,
                                Some((lock_time, p6)) => if p6 == b.len() {
                                    Some(
                                        TxView {
                                            version: version,
                                            lock_time: lock_time,
                                            inputs: inputs,
                                            outputs: outputs,
                                        },
                                    )
                                } else {
                                    None
                                },
                            },
                        },
                    },
                }
            } else {
                // Extended form.
                match spec_dec_u8(b, p2) {
                    None => None,
                    Some((flag, p3)) => if flag != 1 {
                        None
                    } else {
                        match spec_dec_varint(b, p3) {
                            None => None,
                            Some((k_in, p4)) => match spec_dec_inputs(b, p4, k_in as nat) {
                                None => None,
                                Some((inputs, p5)) => match spec_dec_varint(b, p5) {
                                    None => None,
                                    Some((n_out, p6)) => match spec_dec_outputs(
                                        b,
                                        p6,
                                        n_out as nat,
                                    ) {
                                        None => None,
                                        Some((outputs, p7)) => match spec_dec_witnesses(
                                            b,
                                            p7,
                                            k_in as nat,
                                        ) {
                                            None => None,
                                            Some((ws, p8)) => match spec_dec_le4(b, p8) {
                                                None => None,
                                                Some((lock_time, p9)) => if p9 == b.len() && !(
                                                inputs.len() > 0 && (forall|i: int|
                                                    0 <= i < ws.len() ==> (
                                                    #[trigger] ws[i]).len() == 0)) {
                                                    Some(
                                                        TxView {
                                                            version: version,
                                                            lock_time: lock_time,
                                                            inputs: spec_attach_witnesses(
                                                                inputs,
                                                                ws,
                                                            ),
                                                            outputs: outputs,
                                                        },
                                                    )
                                                } else {
                                                    None
                                                },
                                            },
                                        },
                                    },
                                },
                            },
                        }
                    },
                }
            },
        },
    }
}

/// The sizes a transaction held in memory always has: list lengths and
/// byte-string lengths that fit the compact-size encoding, and 32-byte
/// outpoint ids.
pub open spec fn spec_tx_sizes_wf(t: TxView) -> bool {
    &&& t.inputs.len() <= u64::MAX
    &&& t.outputs.len() <= u64::MAX
    &&& forall|i: int|
        0 <= i < t.inputs.len() ==> {
            let inp = #[trigger] t.inputs[i];
            &&& inp.previous_output.txid.len() == 32
            &&& inp.script_sig.len() <= u64::MAX
            &&& inp.witness.len() <= u64::MAX
            &&& forall|j: int|
                0 <= j < inp.witness.len() ==> (#[trigger] inp.witness[j]).len() <= u64::MAX
        }
    &&& forall|i: int|
        0 <= i < t.outputs.len() ==> (#[trigger] t.outputs[i]).script_pubkey.len() <= u64::MAX
}


/// Reading four little-endian bytes back where they were written.
proof fn lemma_dec_le4_enc(pre: Seq<u8>, n: u32, rest: Seq<u8>)
    ensures
        spec_dec_le4(pre + spec_le4(n) + rest, pre.len() as int) == Some(
            (n, pre.len() + 4 as int),
        ),
{
    let b = pre + spec_le4(n) + rest;
    let p = pre.len() as int;
    assert(b.subrange(p, p + 4) =~= spec_le4(n));
    crate::bytes::lemma_le4_val(n);
}

/// Reading two little-endian bytes back where they were written.
proof fn lemma_dec_le2_enc(pre: Seq<u8>, n: u16, rest: Seq<u8>)
    ensures
        spec_dec_le2(pre + spec_le2(n) + rest, pre.len() as int) == Some(
            (n, pre.len() + 2 as int),
        ),
{
    let b = pre + spec_le2(n) + rest;
    let p = pre.len() as int;
    assert(b.subrange(p, p + 2) =~= spec_le2(n));
    crate::bytes::lemma_le2_val(n);
}

/// Reading eight little-endian bytes back where they were written.
proof fn lemma_dec_le8_enc(pre: Seq<u8>, n: u64, rest: Seq<u8>)
    ensures
        spec_dec_le8(pre + spec_le8(n) + rest, pre.len() as int) == Some(
            (n, pre.len() + 8 as int),
        ),
{
    let b = pre + spec_le8(n) + rest;
    let p = pre.len() as int;
    assert(b.subrange(p, p + 8) =~= spec_le8(n));
    crate::bytes::lemma_le8_val(n);
}

/// Reading a compact-size integer back where it was written.
proof fn lemma_dec_varint_enc(pre: Seq<u8>, n: u64, rest: Seq<u8>)
    ensures
        spec_dec_varint(pre + spec_varint(n) + rest, pre.len() as int) == Some(
            (n, (pre.len() + spec_varint(n).len()) as int),
        ),
{
    reveal(spec_dec_varint);
    let b = pre + spec_varint(n) + rest;
    let p = pre.len() as int;
    if n < 0xFD {
        assert(b[p] == n as u8);
    } else if n <= 0xFFFF {
        assert(b[p] == 0xFDu8);
        assert(b =~= (pre + seq![0xFDu8]) + spec_le2(n as u16) + rest);
        lemma_dec_le2_enc(pre + seq![0xFDu8], n as u16, rest);
    } else if n <= 0xFFFFFFFF {
        assert(b[p] == 0xFEu8);
        assert(b =~= (pre + seq![0xFEu8]) + spec_le4(n as u32) + rest);
        lemma_dec_le4_enc(pre + seq![0xFEu8], n as u32, rest);
    } else {
        assert(b[p] == 0xFFu8);
        assert(b =~= (pre + seq![0xFFu8]) + spec_le8(n) + rest);
        lemma_dec_le8_enc(pre + seq![0xFFu8], n, rest);
    }
}

/// Reading raw bytes back where they were written.
proof fn lemma_dec_bytes_enc(pre: Seq<u8>, data: Seq<u8>, rest: Seq<u8>)
    ensures
        spec_dec_bytes(pre + data + rest, pre.len() as int, data.len() as int) == Some(
            (data, (pre.len() + data.len()) as int),
        ),
{
    let b = pre + data + rest;
    let p = pre.len() as int;
    assert(b.subrange(p, p + data.len()) =~= data);
}

/// `i` with its witness stack cleared.
pub open spec fn spec_clear_witness(i: TxInputView) -> TxInputView {
    TxInputView { witness: Seq::empty(), ..i }
}

/// Reading one input back where its base encoding was written: the fields
/// return, with the witness stack empty.
#[verifier::rlimit(100)]
proof fn lemma_dec_input_enc(pre: Seq<u8>, i: TxInputView, rest: Seq<u8>)
    requires
        i.previous_output.txid.len() == 32,
        i.script_sig.len() <= u64::MAX,
    ensures
        spec_dec_input(pre + spec_enc_input(i) + rest, pre.len() as int) == Some(
            (spec_clear_witness(i), (pre.len() + spec_enc_input(i).len()) as int),
        ),
{
    reveal(spec_dec_input);
    let txid = i.previous_output.txid;
    let e2 = spec_le4(i.previous_output.vout);
    let e3 = spec_varint(i.script_sig.len() as u64);
    let e4 = i.script_sig;
    let e5 = spec_le4(i.sequence);
    let b = pre + spec_enc_input(i) + rest;
    // Rebracket the encoding into parse order, one piece at a time.
    vstd::seq_lib::lemma_concat_associative(txid + e2 + e3 + e4, e5, rest);
    vstd::seq_lib::lemma_concat_associative(txid + e2 + e3, e4, e5 + rest);
    vstd::seq_lib::lemma_concat_associative(txid + e2, e3, e4 + (e5 + rest));
    vstd::seq_lib::lemma_concat_associative(txid, e2, e3 + (e4 + (e5 + rest)));
    assert(b == pre + (txid + (e2 + (e3 + (e4 + (e5 + rest)))))) by {
        vstd::seq_lib::lemma_concat_associative(pre, spec_enc_input(i), rest);
        assert(spec_enc_input(i) + rest == txid + (e2 + (e3 + (e4 + (e5 + rest)))));
    }
    vstd::seq_lib::lemma_concat_associative(pre, txid, e2 + (e3 + (e4 + (e5 + rest))));
    lemma_dec_bytes_enc(pre, txid, e2 + (e3 + (e4 + (e5 + rest))));
    let r1 = pre + txid;
    vstd::seq_lib::lemma_concat_associative(r1, e2, e3 + (e4 + (e5 + rest)));
    lemma_dec_le4_enc(r1, i.previous_output.vout, e3 + (e4 + (e5 + rest)));
    let r2 = r1 + e2;
    vstd::seq_lib::lemma_concat_associative(r2, e3, e4 + (e5 + rest));
    lemma_dec_varint_enc(r2, i.script_sig.len() as u64, e4 + (e5 + rest));
    let r3 = r2 + e3;
    vstd::seq_lib::lemma_concat_associative(r3, e4, e5 + rest);
    lemma_dec_bytes_enc(r3, e4, e5 + rest);
    let r4 = r3 + e4;
    vstd::seq_lib::lemma_concat_associative(r4, e5, rest);
    lemma_dec_le4_enc(r4, i.sequence, rest);
}

/// A nonempty input list encodes as its first input followed by the rest.
proof fn lemma_enc_inputs_first(s: Seq<TxInputView>)
    requires
        s.len() > 0,
    ensures
        spec_enc_inputs(s) == spec_enc_input(s[0]) + spec_enc_inputs(s.drop_first()),
    decreases s.len(),
{
    if s.len() == 1 {
        assert(s.drop_last() =~= Seq::empty());
        assert(s.drop_first() =~= Seq::empty());
        assert(spec_enc_inputs(s) =~= spec_enc_input(s[0]) + spec_enc_inputs(s.drop_first()));
    } else {
        lemma_enc_inputs_first(s.drop_last());
        assert(s.drop_last()[0] == s[0]);
        assert(s.drop_last().drop_first() =~= s.drop_first().drop_last());
        assert(s.drop_first().last() == s.last());
        vstd::seq_lib::lemma_concat_associative(
            spec_enc_input(s[0]),
            spec_enc_inputs(s.drop_first().drop_last()),
            spec_enc_input(s.drop_first().last()),
        );
    }
}

/// A nonempty output list encodes as its first output followed by the rest.
proof fn lemma_enc_outputs_first(s: Seq<TxOutputView>)
    requires
        s.len() > 0,
    ensures
        spec_enc_outputs(s) == spec_enc_output(s[0]) + spec_enc_outputs(s.drop_first()),
    decreases s.len(),
{
    if s.len() == 1 {
        assert(s.drop_last() =~= Seq::empty());
        assert(s.drop_first() =~= Seq::empty());
        assert(spec_enc_outputs(s) =~= spec_enc_output(s[0]) + spec_enc_outputs(s.drop_first()));
    } else {
        lemma_enc_outputs_first(s.drop_last());
        assert(s.drop_last()[0] == s[0]);
        assert(s.drop_last().drop_first() =~= s.drop_first().drop_last());
        assert(s.drop_first().last() == s.last());
        vstd::seq_lib::lemma_concat_associative(
            spec_enc_output(s[0]),
            spec_enc_outputs(s.drop_first().drop_last()),
            spec_enc_output(s.drop_first().last()),
        );
    }
}

/// A nonempty witness stack encodes its first item first.
proof fn lemma_enc_witness_items_first(w: Seq<Seq<u8>>)
    requires
        w.len() > 0,
    ensures
        spec_enc_witness_items(w) == (spec_varint(w[0].len() as u64) + w[0])
            + spec_enc_witness_items(w.drop_first()),
    decreases w.len(),
{
    if w.len() == 1 {
        assert(w.drop_last() =~= Seq::empty());
        assert(w.drop_first() =~= Seq::empty());
        assert(spec_enc_witness_items(w) =~= (spec_varint(w[0].len() as u64) + w[0])
            + spec_enc_witness_items(w.drop_first()));
    } else {
        lemma_enc_witness_items_first(w.drop_last());
        assert(w.drop_last()[0] == w[0]);
        assert(w.drop_last().drop_first() =~= w.drop_first().drop_last());
        assert(w.drop_first().last() == w.last());
        vstd::seq_lib::lemma_concat_associative(
            spec_varint(w[0].len() as u64) + w[0],
            spec_enc_witness_items(w.drop_first().drop_last()),
            spec_varint(w.drop_first().last().len() as u64) + w.drop_first().last(),
        );
        vstd::seq_lib::lemma_concat_associative(
            spec_enc_witness_items(w.drop_last()),
            spec_varint(w.last().len() as u64),
            w.last(),
        );
        vstd::seq_lib::lemma_concat_associative(
            (spec_varint(w[0].len() as u64) + w[0]) + spec_enc_witness_items(
                w.drop_first().drop_last(),
            ),
            spec_varint(w.drop_first().last().len() as u64),
            w.drop_first().last(),
        );
    }
}

/// A nonempty witness section encodes its first stack first.
proof fn lemma_enc_witnesses_first(s: Seq<TxInputView>)
    requires
        s.len() > 0,
    ensures
        spec_enc_witnesses(s) == spec_enc_witness(s[0].witness) + spec_enc_witnesses(
            s.drop_first(),
        ),
    decreases s.len(),
{
    if s.len() == 1 {
        assert(s.drop_last() =~= Seq::empty());
        assert(s.drop_first() =~= Seq::empty());
        assert(spec_enc_witnesses(s) =~= spec_enc_witness(s[0].witness) + spec_enc_witnesses(
            s.drop_first(),
        ));
    } else {
        lemma_enc_witnesses_first(s.drop_last());
        assert(s.drop_last()[0] == s[0]);
        assert(s.drop_last().drop_first() =~= s.drop_first().drop_last());
        assert(s.drop_first().last() == s.last());
        vstd::seq_lib::lemma_concat_associative(
            spec_enc_witness(s[0].witness),
            spec_enc_witnesses(s.drop_first().drop_last()),
            spec_enc_witness(s.drop_first().last().witness),
        );
    }
}

/// Reading an input list back where it was written: every input returns
/// with its witness cleared.
#[verifier::rlimit(100)]
proof fn lemma_dec_inputs_enc(pre: Seq<u8>, s: Seq<TxInputView>, rest: Seq<u8>)
    requires
        forall|i: int|
            0 <= i < s.len() ==> (#[trigger] s[i]).previous_output.txid.len() == 32 && s[
                i
            ].script_sig.len() <= u64::MAX,
    ensures
        spec_dec_inputs(pre + spec_enc_inputs(s) + rest, pre.len() as int, s.len()) == Some(
            (s.map_values(|i: TxInputView| spec_clear_witness(i)), (pre.len()
                + spec_enc_inputs(s).len()) as int),
        ),
    decreases s.len(),
{
    let cleared = s.map_values(|i: TxInputView| spec_clear_witness(i));
    if s.len() == 0 {
        assert(spec_enc_inputs(s) =~= Seq::empty());
        assert(pre + spec_enc_inputs(s) + rest =~= pre + rest);
        assert(cleared =~= Seq::empty());
    } else {
        let e0 = spec_enc_input(s[0]);
        let er = spec_enc_inputs(s.drop_first());
        lemma_enc_inputs_first(s);
        let b = pre + spec_enc_inputs(s) + rest;
        vstd::seq_lib::lemma_concat_associative(pre, e0, er);
        vstd::seq_lib::lemma_concat_associative(pre + e0, er, rest);
        vstd::seq_lib::lemma_concat_associative(pre, e0 + er, rest);
        vstd::seq_lib::lemma_concat_associative(pre + e0, er, rest);
        vstd::seq_lib::lemma_concat_associative(pre, e0, er + rest);
        assert(b == (pre + e0) + (er + rest));
        assert(b == pre + e0 + (er + rest));
        lemma_dec_input_enc(pre, s[0], er + rest);
        assert(b == (pre + e0) + er + rest);
        lemma_dec_inputs_enc(pre + e0, s.drop_first(), rest);
        assert(cleared =~= seq![spec_clear_witness(s[0])] + s.drop_first().map_values(
            |i: TxInputView| spec_clear_witness(i),
        ));
    }
}

/// Reading one output back where it was written.
#[verifier::rlimit(100)]
proof fn lemma_dec_output_enc(pre: Seq<u8>, o: TxOutputView, rest: Seq<u8>)
    requires
        o.script_pubkey.len() <= u64::MAX,
    ensures
        spec_dec_output(pre + spec_enc_output(o) + rest, pre.len() as int) == Some(
            (o, (pre.len() + spec_enc_output(o).len()) as int),
        ),
{
    reveal(spec_dec_output);
    let e1 = spec_le8(o.value);
    let e2 = spec_varint(o.script_pubkey.len() as u64);
    let e3 = o.script_pubkey;
    let b = pre + spec_enc_output(o) + rest;
    vstd::seq_lib::lemma_concat_associative(e1, e2, e3);
    vstd::seq_lib::lemma_concat_associative(pre, spec_enc_output(o), rest);
    vstd::seq_lib::lemma_concat_associative(e1, e2 + e3, rest);
    vstd::seq_lib::lemma_concat_associative(e2, e3, rest);
    assert(b == pre + (e1 + (e2 + (e3 + rest)))) by {
        vstd::seq_lib::lemma_concat_associative(e1, e2, e3 + rest);
        assert(spec_enc_output(o) + rest == e1 + (e2 + (e3 + rest)));
    }
    vstd::seq_lib::lemma_concat_associative(pre, e1, e2 + (e3 + rest));
    lemma_dec_le8_enc(pre, o.value, e2 + (e3 + rest));
    let r1 = pre + e1;
    vstd::seq_lib::lemma_concat_associative(r1, e2, e3 + rest);
    lemma_dec_varint_enc(r1, o.script_pubkey.len() as u64, e3 + rest);
    let r2 = r1 + e2;
    vstd::seq_lib::lemma_concat_associative(r2, e3, rest);
    lemma_dec_bytes_enc(r2, e3, rest);
}

/// Reading an output list back where it was written.
#[verifier::rlimit(100)]
proof fn lemma_dec_outputs_enc(pre: Seq<u8>, s: Seq<TxOutputView>, rest: Seq<u8>)
    requires
        forall|i: int| 0 <= i < s.len() ==> (#[trigger] s[i]).script_pubkey.len() <= u64::MAX,
    ensures
        spec_dec_outputs(pre + spec_enc_outputs(s) + rest, pre.len() as int, s.len()) == Some(
            (s, (pre.len() + spec_enc_outputs(s).len()) as int),
        ),
    decreases s.len(),
{
    if s.len() == 0 {
        assert(spec_enc_outputs(s) =~= Seq::empty());
        assert(pre + spec_enc_outputs(s) + rest =~= pre + rest);
    } else {
        let e0 = spec_enc_output(s[0]);
        let er = spec_enc_outputs(s.drop_first());
        lemma_enc_outputs_first(s);
        let b = pre + spec_enc_outputs(s) + rest;
        vstd::seq_lib::lemma_concat_associative(pre, e0 + er, rest);
        vstd::seq_lib::lemma_concat_associative(pre, e0, er);
        vstd::seq_lib::lemma_concat_associative(pre + e0, er, rest);
        vstd::seq_lib::lemma_concat_associative(pre, e0, er + rest);
        assert(b == (pre + e0) + (er + rest));
        assert(b == pre + e0 + (er + rest));
        lemma_dec_output_enc(pre, s[0], er + rest);
        assert(b == (pre + e0) + er + rest);
        lemma_dec_outputs_enc(pre + e0, s.drop_first(), rest);
        assert(s =~= seq![s[0]] + s.drop_first());
    }
}

/// Reading witness items back where they were written.
#[verifier::rlimit(100)]
proof fn lemma_dec_witness_items_enc(pre: Seq<u8>, w: Seq<Seq<u8>>, rest: Seq<u8>)
    requires
        forall|j: int| 0 <= j < w.len() ==> (#[trigger] w[j]).len() <= u64::MAX,
    ensures
        spec_dec_witness_items(pre + spec_enc_witness_items(w) + rest, pre.len() as int, w.len())
            == Some((w, (pre.len() + spec_enc_witness_items(w).len()) as int)),
    decreases w.len(),
{
    if w.len() == 0 {
        assert(spec_enc_witness_items(w) =~= Seq::empty());
        assert(pre + spec_enc_witness_items(w) + rest =~= pre + rest);
    } else {
        let ev = spec_varint(w[0].len() as u64);
        let e0 = ev + w[0];
        let er = spec_enc_witness_items(w.drop_first());
        lemma_enc_witness_items_first(w);
        let b = pre + spec_enc_witness_items(w) + rest;
        vstd::seq_lib::lemma_concat_associative(pre, e0 + er, rest);
        vstd::seq_lib::lemma_concat_associative(pre, e0, er);
        vstd::seq_lib::lemma_concat_associative(pre + e0, er, rest);
        vstd::seq_lib::lemma_concat_associative(pre, e0, er + rest);
        assert(b == (pre + e0) + (er + rest));
        assert(b == pre + e0 + (er + rest));
        // One item: its length, then its bytes.
        vstd::seq_lib::lemma_concat_associative(pre, ev, w[0]);
        vstd::seq_lib::lemma_concat_associative(pre + ev, w[0], er + rest);
        vstd::seq_lib::lemma_concat_associative(pre, ev, w[0] + (er + rest));
        assert(b == pre + ev + (w[0] + (er + rest)));
        lemma_dec_varint_enc(pre, w[0].len() as u64, w[0] + (er + rest));
        assert(b == (pre + ev) + w[0] + (er + rest));
        lemma_dec_bytes_enc(pre + ev, w[0], er + rest);
        assert(b == (pre + e0) + er + rest);
        lemma_dec_witness_items_enc(pre + e0, w.drop_first(), rest);
        assert(w =~= seq![w[0]] + w.drop_first());
    }
}

/// Reading one witness stack back where it was written.
#[verifier::rlimit(100)]
proof fn lemma_dec_witness_enc(pre: Seq<u8>, w: Seq<Seq<u8>>, rest: Seq<u8>)
    requires
        w.len() <= u64::MAX,
        forall|j: int| 0 <= j < w.len() ==> (#[trigger] w[j]).len() <= u64::MAX,
    ensures
        spec_dec_witness(pre + spec_enc_witness(w) + rest, pre.len() as int) == Some(
            (w, (pre.len() + spec_enc_witness(w).len()) as int),
        ),
{
    let ev = spec_varint(w.len() as u64);
    let ei = spec_enc_witness_items(w);
    let b = pre + spec_enc_witness(w) + rest;
    vstd::seq_lib::lemma_concat_associative(pre, ev + ei, rest);
    vstd::seq_lib::lemma_concat_associative(pre, ev, ei);
    vstd::seq_lib::lemma_concat_associative(pre + ev, ei, rest);
    vstd::seq_lib::lemma_concat_associative(pre, ev, ei + rest);
    assert(b == pre + ev + (ei + rest));
    lemma_dec_varint_enc(pre, w.len() as u64, ei + rest);
    assert(b == (pre + ev) + ei + rest);
    lemma_dec_witness_items_enc(pre + ev, w, rest);
}

/// Reading the witness section back where it was written: one stack per
/// input, in order.
#[verifier::rlimit(100)]
proof fn lemma_dec_witnesses_enc(pre: Seq<u8>, s: Seq<TxInputView>, rest: Seq<u8>)
    requires
        forall|i: int|
            0 <= i < s.len() ==> (#[trigger] s[i]).witness.len() <= u64::MAX && (forall|j: int|
                0 <= j < s[i].witness.len() ==> (#[trigger] s[i].witness[j]).len() <= u64::MAX),
    ensures
        spec_dec_witnesses(pre + spec_enc_witnesses(s) + rest, pre.len() as int, s.len()) == Some(
            (s.map_values(|i: TxInputView| i.witness), (pre.len()
                + spec_enc_witnesses(s).len()) as int),
        ),
    decreases s.len(),
{
    let ws = s.map_values(|i: TxInputView| i.witness);
    if s.len() == 0 {
        assert(spec_enc_witnesses(s) =~= Seq::empty());
        assert(pre + spec_enc_witnesses(s) + rest =~= pre + rest);
        assert(ws =~= Seq::empty());
    } else {
        let e0 = spec_enc_witness(s[0].witness);
        let er = spec_enc_witnesses(s.drop_first());
        lemma_enc_witnesses_first(s);
        let b = pre + spec_enc_witnesses(s) + rest;
        vstd::seq_lib::lemma_concat_associative(pre, e0 + er, rest);
        vstd::seq_lib::lemma_concat_associative(pre, e0, er);
        vstd::seq_lib::lemma_concat_associative(pre + e0, er, rest);
        vstd::seq_lib::lemma_concat_associative(pre, e0, er + rest);
        assert(b == (pre + e0) + (er + rest));
        assert(b == pre + e0 + (er + rest));
        lemma_dec_witness_enc(pre, s[0].witness, er + rest);
        assert(b == (pre + e0) + er + rest);
        lemma_dec_witnesses_enc(pre + e0, s.drop_first(), rest);
        assert(ws =~= seq![s[0].witness] + s.drop_first().map_values(
            |i: TxInputView| i.witness,
        ));
    }
}

/// Where each section of the base form starts.
spec fn base_p2(t: TxView) -> int {
    4 + spec_varint(t.inputs.len() as u64).len() as int
}

spec fn base_p3(t: TxView) -> int {
    base_p2(t) + spec_enc_inputs(t.inputs).len()
}

spec fn base_p4(t: TxView) -> int {
    base_p3(t) + spec_varint(t.outputs.len() as u64).len()
}

spec fn base_p5(t: TxView) -> int {
    base_p4(t) + spec_enc_outputs(t.outputs).len()
}

/// The version field parses back at the head of the base form.
#[verifier::rlimit(100)]
proof fn lemma_base_version(t: TxView)
    ensures
        spec_dec_le4(crate::encode::spec_enc_tx_base(t), 0) == Some((t.version, 4 as int)),
{
    let empty: Seq<u8> = Seq::empty();
    let e1 = spec_le4(t.version);
    let e2 = spec_varint(t.inputs.len() as u64);
    let e3 = spec_enc_inputs(t.inputs);
    let e4 = spec_varint(t.outputs.len() as u64);
    let e5 = spec_enc_outputs(t.outputs);
    let e6 = spec_le4(t.lock_time);
    let b = crate::encode::spec_enc_tx_base(t);
    vstd::seq_lib::lemma_concat_associative(e1 + e2 + e3 + e4, e5, e6);
    vstd::seq_lib::lemma_concat_associative(e1 + e2 + e3, e4, e5 + e6);
    vstd::seq_lib::lemma_concat_associative(e1 + e2, e3, e4 + (e5 + e6));
    vstd::seq_lib::lemma_concat_associative(e1, e2, e3 + (e4 + (e5 + e6)));
    assert(b == empty + e1 + (e2 + (e3 + (e4 + (e5 + e6))))) by {
        assert(empty + e1 =~= e1);
    }
    lemma_dec_le4_enc(empty, t.version, e2 + (e3 + (e4 + (e5 + e6))));
}

/// The input count parses back after the version.
#[verifier::rlimit(100)]
proof fn lemma_base_incount(t: TxView)
    ensures
        spec_dec_varint(crate::encode::spec_enc_tx_base(t), 4) == Some(
            (t.inputs.len() as u64, base_p2(t)),
        ),
{
    let e1 = spec_le4(t.version);
    let e2 = spec_varint(t.inputs.len() as u64);
    let e3 = spec_enc_inputs(t.inputs);
    let e4 = spec_varint(t.outputs.len() as u64);
    let e5 = spec_enc_outputs(t.outputs);
    let e6 = spec_le4(t.lock_time);
    vstd::seq_lib::lemma_concat_associative(e1 + e2 + e3 + e4, e5, e6);
    vstd::seq_lib::lemma_concat_associative(e1 + e2 + e3, e4, e5 + e6);
    vstd::seq_lib::lemma_concat_associative(e1 + e2, e3, e4 + (e5 + e6));
    lemma_dec_varint_enc(e1, t.inputs.len() as u64, e3 + (e4 + (e5 + e6)));
}

/// The input list parses back after the count.
#[verifier::rlimit(100)]
proof fn lemma_base_inputs(t: TxView)
    requires
        spec_tx_sizes_wf(t),
    ensures
        spec_dec_inputs(crate::encode::spec_enc_tx_base(t), base_p2(t), t.inputs.len()) == Some(
            (t.inputs.map_values(|i: TxInputView| spec_clear_witness(i)), base_p3(t)),
        ),
{
    let e1 = spec_le4(t.version);
    let e2 = spec_varint(t.inputs.len() as u64);
    let e3 = spec_enc_inputs(t.inputs);
    let e4 = spec_varint(t.outputs.len() as u64);
    let e5 = spec_enc_outputs(t.outputs);
    let e6 = spec_le4(t.lock_time);
    vstd::seq_lib::lemma_concat_associative(e1 + e2 + e3 + e4, e5, e6);
    vstd::seq_lib::lemma_concat_associative(e1 + e2 + e3, e4, e5 + e6);
    lemma_dec_inputs_enc(e1 + e2, t.inputs, e4 + (e5 + e6));
}

/// The output count parses back after the inputs.
#[verifier::rlimit(100)]
proof fn lemma_base_outcount(t: TxView)
    ensures
        spec_dec_varint(crate::encode::spec_enc_tx_base(t), base_p3(t)) == Some(
            (t.outputs.len() as u64, base_p4(t)),
        ),
{
    let e1 = spec_le4(t.version);
    let e2 = spec_varint(t.inputs.len() as u64);
    let e3 = spec_enc_inputs(t.inputs);
    let e4 = spec_varint(t.outputs.len() as u64);
    let e5 = spec_enc_outputs(t.outputs);
    let e6 = spec_le4(t.lock_time);
    vstd::seq_lib::lemma_concat_associative(e1 + e2 + e3 + e4, e5, e6);
    lemma_dec_varint_enc(e1 + e2 + e3, t.outputs.len() as u64, e5 + e6);
}

/// The output list parses back after its count.
#[verifier::rlimit(100)]
proof fn lemma_base_outputs(t: TxView)
    requires
        spec_tx_sizes_wf(t),
    ensures
        spec_dec_outputs(crate::encode::spec_enc_tx_base(t), base_p4(t), t.outputs.len()) == Some(
            (t.outputs, base_p5(t)),
        ),
{
    lemma_dec_outputs_enc(
        spec_le4(t.version) + spec_varint(t.inputs.len() as u64) + spec_enc_inputs(t.inputs)
            + spec_varint(t.outputs.len() as u64),
        t.outputs,
        spec_le4(t.lock_time),
    );
}

/// The lock time parses back at the tail, consuming the last byte.
#[verifier::rlimit(100)]
proof fn lemma_base_locktime(t: TxView)
    ensures
        spec_dec_le4(crate::encode::spec_enc_tx_base(t), base_p5(t)) == Some(
            (t.lock_time, base_p5(t) + 4),
        ),
        base_p5(t) + 4 == crate::encode::spec_enc_tx_base(t).len(),
{
    let empty: Seq<u8> = Seq::empty();
    let r5 = spec_le4(t.version) + spec_varint(t.inputs.len() as u64) + spec_enc_inputs(t.inputs)
        + spec_varint(t.outputs.len() as u64) + spec_enc_outputs(t.outputs);
    let e6 = spec_le4(t.lock_time);
    let b = crate::encode::spec_enc_tx_base(t);
    assert(b == r5 + e6 + empty) by {
        assert(r5 + e6 + empty =~= r5 + e6);
    }
    lemma_dec_le4_enc(r5, t.lock_time, empty);
}

/// The base form reads back as the transaction it encodes.
#[verifier::rlimit(100)]
proof fn lemma_round_trip_base(t: TxView)
    requires
        spec_tx_sizes_wf(t),
        !spec_uses_extended(t),
    ensures
        spec_dec_tx(crate::encode::spec_enc_tx_base(t)) == Some(t),
{
    lemma_base_version(t);
    lemma_base_incount(t);
    lemma_base_inputs(t);
    lemma_base_outcount(t);
    lemma_base_outputs(t);
    lemma_base_locktime(t);
    let b = crate::encode::spec_enc_tx_base(t);
    let cleared = t.inputs.map_values(|i: TxInputView| spec_clear_witness(i));
    assert(t.inputs.len() > 0);
    assert forall|i: int| 0 <= i < cleared.len() implies cleared[i] == t.inputs[i] by {
        assert(t.inputs[i].witness.len() == 0);
        assert(t.inputs[i].witness =~= Seq::<Seq<u8>>::empty());
        assert(cleared[i] =~= t.inputs[i]);
    }
    assert(cleared =~= t.inputs);
    assert(spec_dec_tx(b) == Some(
        TxView {
            version: t.version,
            lock_time: t.lock_time,
            inputs: cleared,
            outputs: t.outputs,
        },
    ));
    assert(TxView {
        version: t.version,
        lock_time: t.lock_time,
        inputs: cleared,
        outputs: t.outputs,
    } =~= t);
}

/// Where each section of the extended form starts.
spec fn ext_p2(t: TxView) -> int {
    6 + spec_varint(t.inputs.len() as u64).len() as int
}

spec fn ext_p3(t: TxView) -> int {
    ext_p2(t) + spec_enc_inputs(t.inputs).len()
}

spec fn ext_p4(t: TxView) -> int {
    ext_p3(t) + spec_varint(t.outputs.len() as u64).len()
}

spec fn ext_p5(t: TxView) -> int {
    ext_p4(t) + spec_enc_outputs(t.outputs).len()
}

spec fn ext_p6(t: TxView) -> int {
    ext_p5(t) + spec_enc_witnesses(t.inputs).len()
}

/// The head of the extended form: version, marker, flag.
#[verifier::rlimit(100)]
proof fn lemma_ext_head(t: TxView)
    requires
        spec_uses_extended(t),
    ensures
        spec_dec_le4(spec_enc_tx(t), 0) == Some((t.version, 4 as int)),
        spec_dec_varint(spec_enc_tx(t), 4) == Some((0u64, 5 as int)),
        spec_dec_u8(spec_enc_tx(t), 5) == Some((0x01u8, 6 as int)),
{
    let empty: Seq<u8> = Seq::empty();
    let e1 = spec_le4(t.version);
    let em = seq![0x00u8, 0x01u8];
    let e2 = spec_varint(t.inputs.len() as u64);
    let e3 = spec_enc_inputs(t.inputs);
    let e4 = spec_varint(t.outputs.len() as u64);
    let e5 = spec_enc_outputs(t.outputs);
    let e6 = spec_enc_witnesses(t.inputs);
    let e7 = spec_le4(t.lock_time);
    let b = spec_enc_tx(t);
    vstd::seq_lib::lemma_concat_associative(e1 + em + e2 + e3 + e4 + e5, e6, e7);
    vstd::seq_lib::lemma_concat_associative(e1 + em + e2 + e3 + e4, e5, e6 + e7);
    vstd::seq_lib::lemma_concat_associative(e1 + em + e2 + e3, e4, e5 + (e6 + e7));
    vstd::seq_lib::lemma_concat_associative(e1 + em + e2, e3, e4 + (e5 + (e6 + e7)));
    vstd::seq_lib::lemma_concat_associative(e1 + em, e2, e3 + (e4 + (e5 + (e6 + e7))));
    vstd::seq_lib::lemma_concat_associative(e1, em, e2 + (e3 + (e4 + (e5 + (e6 + e7)))));
    assert(b == empty + e1 + (em + (e2 + (e3 + (e4 + (e5 + (e6 + e7))))))) by {
        assert(empty + e1 =~= e1);
    }
    lemma_dec_le4_enc(empty, t.version, em + (e2 + (e3 + (e4 + (e5 + (e6 + e7))))));
    reveal(spec_dec_varint);
    assert(b[4] == 0x00u8 && b[5] == 0x01u8 && b.len() >= 6) by {
        assert((e1 + (em + (e2 + (e3 + (e4 + (e5 + (e6 + e7)))))))[4] == 0x00u8);
        assert((e1 + (em + (e2 + (e3 + (e4 + (e5 + (e6 + e7)))))))[5] == 0x01u8);
    }
}

/// The input count of the extended form parses back after the flag.
#[verifier::rlimit(100)]
proof fn lemma_ext_incount(t: TxView)
    requires
        spec_uses_extended(t),
    ensures
        spec_dec_varint(spec_enc_tx(t), 6) == Some((t.inputs.len() as u64, ext_p2(t))),
{
    let e1 = spec_le4(t.version);
    let em = seq![0x00u8, 0x01u8];
    let e2 = spec_varint(t.inputs.len() as u64);
    let e3 = spec_enc_inputs(t.inputs);
    let e4 = spec_varint(t.outputs.len() as u64);
    let e5 = spec_enc_outputs(t.outputs);
    let e6 = spec_enc_witnesses(t.inputs);
    let e7 = spec_le4(t.lock_time);
    vstd::seq_lib::lemma_concat_associative(e1 + em + e2 + e3 + e4 + e5, e6, e7);
    vstd::seq_lib::lemma_concat_associative(e1 + em + e2 + e3 + e4, e5, e6 + e7);
    vstd::seq_lib::lemma_concat_associative(e1 + em + e2 + e3, e4, e5 + (e6 + e7));
    vstd::seq_lib::lemma_concat_associative(e1 + em + e2, e3, e4 + (e5 + (e6 + e7)));
    lemma_dec_varint_enc(e1 + em, t.inputs.len() as u64, e3 + (e4 + (e5 + (e6 + e7))));
    assert((e1 + em).len() == 6);
}

/// The input list of the extended form parses back after its count.
#[verifier::rlimit(100)]
proof fn lemma_ext_inputs(t: TxView)
    requires
        spec_tx_sizes_wf(t),
        spec_uses_extended(t),
    ensures
        spec_dec_inputs(spec_enc_tx(t), ext_p2(t), t.inputs.len()) == Some(
            (t.inputs.map_values(|i: TxInputView| spec_clear_witness(i)), ext_p3(t)),
        ),
{
    let e1 = spec_le4(t.version);
    let em = seq![0x00u8, 0x01u8];
    let e2 = spec_varint(t.inputs.len() as u64);
    let e3 = spec_enc_inputs(t.inputs);
    let e4 = spec_varint(t.outputs.len() as u64);
    let e5 = spec_enc_outputs(t.outputs);
    let e6 = spec_enc_witnesses(t.inputs);
    let e7 = spec_le4(t.lock_time);
    vstd::seq_lib::lemma_concat_associative(e1 + em + e2 + e3 + e4 + e5, e6, e7);
    vstd::seq_lib::lemma_concat_associative(e1 + em + e2 + e3 + e4, e5, e6 + e7);
    vstd::seq_lib::lemma_concat_associative(e1 + em + e2 + e3, e4, e5 + (e6 + e7));
    lemma_dec_inputs_enc(e1 + em + e2, t.inputs, e4 + (e5 + (e6 + e7)));
}

/// The output count of the extended form parses back after the inputs.
#[verifier::rlimit(100)]
proof fn lemma_ext_outcount(t: TxView)
    requires
        spec_uses_extended(t),
    ensures
        spec_dec_varint(spec_enc_tx(t), ext_p3(t)) == Some((t.outputs.len() as u64, ext_p4(t))),
{
    let e1 = spec_le4(t.version);
    let em = seq![0x00u8, 0x01u8];
    let e2 = spec_varint(t.inputs.len() as u64);
    let e3 = spec_enc_inputs(t.inputs);
    let e4 = spec_varint(t.outputs.len() as u64);
    let e5 = spec_enc_outputs(t.outputs);
    let e6 = spec_enc_witnesses(t.inputs);
    let e7 = spec_le4(t.lock_time);
    vstd::seq_lib::lemma_concat_associative(e1 + em + e2 + e3 + e4 + e5, e6, e7);
    vstd::seq_lib::lemma_concat_associative(e1 + em + e2 + e3 + e4, e5, e6 + e7);
    lemma_dec_varint_enc(e1 + em + e2 + e3, t.outputs.len() as u64, e5 + (e6 + e7));
}

/// The output list of the extended form parses back after its count.
#[verifier::rlimit(100)]
proof fn lemma_ext_outputs(t: TxView)
    requires
        spec_tx_sizes_wf(t),
        spec_uses_extended(t),
    ensures
        spec_dec_outputs(spec_enc_tx(t), ext_p4(t), t.outputs.len()) == Some(
            (t.outputs, ext_p5(t)),
        ),
{
    let e1 = spec_le4(t.version);
    let em = seq![0x00u8, 0x01u8];
    let e2 = spec_varint(t.inputs.len() as u64);
    let e3 = spec_enc_inputs(t.inputs);
    let e4 = spec_varint(t.outputs.len() as u64);
    let e6 = spec_enc_witnesses(t.inputs);
    let e7 = spec_le4(t.lock_time);
    vstd::seq_lib::lemma_concat_associative(e1 + em + e2 + e3 + e4 + spec_enc_outputs(t.outputs), e6, e7);
    lemma_dec_outputs_enc(e1 + em + e2 + e3 + e4, t.outputs, e6 + e7);
}

/// The witness section parses back after the outputs.
#[verifier::rlimit(100)]
proof fn lemma_ext_witnesses(t: TxView)
    requires
        spec_tx_sizes_wf(t),
        spec_uses_extended(t),
    ensures
        spec_dec_witnesses(spec_enc_tx(t), ext_p5(t), t.inputs.len()) == Some(
            (t.inputs.map_values(|i: TxInputView| i.witness), ext_p6(t)),
        ),
{
    lemma_dec_witnesses_enc(
        spec_le4(t.version) + seq![0x00u8, 0x01u8] + spec_varint(t.inputs.len() as u64)
            + spec_enc_inputs(t.inputs) + spec_varint(t.outputs.len() as u64) + spec_enc_outputs(
            t.outputs,
        ),
        t.inputs,
        spec_le4(t.lock_time),
    );
}

/// The lock time of the extended form consumes the last byte.
#[verifier::rlimit(100)]
proof fn lemma_ext_locktime(t: TxView)
    requires
        spec_uses_extended(t),
    ensures
        spec_dec_le4(spec_enc_tx(t), ext_p6(t)) == Some((t.lock_time, ext_p6(t) + 4)),
        ext_p6(t) + 4 == spec_enc_tx(t).len(),
{
    let empty: Seq<u8> = Seq::empty();
    let r6 = spec_le4(t.version) + seq![0x00u8, 0x01u8] + spec_varint(t.inputs.len() as u64)
        + spec_enc_inputs(t.inputs) + spec_varint(t.outputs.len() as u64) + spec_enc_outputs(
        t.outputs,
    ) + spec_enc_witnesses(t.inputs);
    let e7 = spec_le4(t.lock_time);
    let b = spec_enc_tx(t);
    assert(b == r6 + e7 + empty) by {
        assert(r6 + e7 + empty =~= r6 + e7);
    }
    lemma_dec_le4_enc(r6, t.lock_time, empty);
}

/// The extended form reads back as the transaction it encodes.
#[verifier::rlimit(100)]
proof fn lemma_round_trip_extended(t: TxView)
    requires
        spec_tx_sizes_wf(t),
        spec_uses_extended(t),
    ensures
        spec_dec_tx(spec_enc_tx(t)) == Some(t),
{
    lemma_ext_head(t);
    lemma_ext_incount(t);
    lemma_ext_inputs(t);
    lemma_ext_outcount(t);
    lemma_ext_outputs(t);
    lemma_ext_witnesses(t);
    lemma_ext_locktime(t);
    let b = spec_enc_tx(t);
    let cleared = t.inputs.map_values(|i: TxInputView| spec_clear_witness(i));
    let ws = t.inputs.map_values(|i: TxInputView| i.witness);
    assert(spec_attach_witnesses(cleared, ws) =~= t.inputs);
    if t.inputs.len() > 0 {
        let k = choose|i: int|
            0 <= i < t.inputs.len() && (#[trigger] t.inputs[i]).witness.len() > 0;
        assert(ws[k].len() > 0);
    }
    assert(spec_dec_tx(b) == Some(
        TxView {
            version: t.version,
            lock_time: t.lock_time,
            inputs: spec_attach_witnesses(cleared, ws),
            outputs: t.outputs,
        },
    ));
    assert(TxView {
        version: t.version,
        lock_time: t.lock_time,
        inputs: spec_attach_witnesses(cleared, ws),
        outputs: t.outputs,
    } =~= t);
}

/// Decoding inverts encoding: the byte form of a well-sized transaction
/// reads back as that very transaction.
pub proof fn lemma_round_trip(t: TxView)
    requires
        spec_tx_sizes_wf(t),
    ensures
        spec_dec_tx(spec_enc_tx(t)) == Some(t),
{
    if spec_uses_extended(t) {
        lemma_round_trip_extended(t);
    } else {
        lemma_round_trip_base(t);
    }
}


/// Reads one byte at `p`.
fn dec_u8(b: &Vec<u8>, p: usize) -> (r: Option<(u8, usize)>)
    ensures
        match r {
            Some(v) => v.1 <= b@.len() && spec_dec_u8(b@, p as int) == Some((v.0, v.1 as int)),
            None => spec_dec_u8(b@, p as int) is None,
        },
{
    if p < b.len() {
        Some((b[p], p + 1))
    } else {
        None
    }
}

/// Reads a four-byte little-endian integer at `p`.
fn dec_le4(b: &Vec<u8>, p: usize) -> (r: Option<(u32, usize)>)
    ensures
        match r {
            Some(v) => v.1 <= b@.len() && spec_dec_le4(b@, p as int) == Some((v.0, v.1 as int)),
            None => spec_dec_le4(b@, p as int) is None,
        },
{
    if p <= b.len() && b.len() - p >= 4 {
        let v: u32 = (b[p] as u32) + 256 * (b[p + 1] as u32) + 65536 * (b[p + 2] as u32)
            + 16777216 * (b[p + 3] as u32);
        proof {
            assert(b@.subrange(p as int, p + 4)[0] == b@[p as int]);
            assert(b@.subrange(p as int, p + 4)[1] == b@[p + 1]);
            assert(b@.subrange(p as int, p + 4)[2] == b@[p + 2]);
            assert(b@.subrange(p as int, p + 4)[3] == b@[p + 3]);
        }
        Some((v, p + 4))
    } else {
        None
    }
}

/// Reads a two-byte little-endian integer at `p`.
fn dec_le2(b: &Vec<u8>, p: usize) -> (r: Option<(u16, usize)>)
    ensures
        match r {
            Some(v) => v.1 <= b@.len() && spec_dec_le2(b@, p as int) == Some((v.0, v.1 as int)),
            None => spec_dec_le2(b@, p as int) is None,
        },
{
    if p <= b.len() && b.len() - p >= 2 {
        let v: u16 = (b[p] as u16) + 256 * (b[p + 1] as u16);
        proof {
            assert(b@.subrange(p as int, p + 2)[0] == b@[p as int]);
            assert(b@.subrange(p as int, p + 2)[1] == b@[p + 1]);
        }
        Some((v, p + 2))
    } else {
        None
    }
}

/// Reads an eight-byte little-endian integer at `p`.
fn dec_le8(b: &Vec<u8>, p: usize) -> (r: Option<(u64, usize)>)
    ensures
        match r {
            Some(v) => v.1 <= b@.len() && spec_dec_le8(b@, p as int) == Some((v.0, v.1 as int)),
            None => spec_dec_le8(b@, p as int) is None,
        },
{
    if p <= b.len() && b.len() - p >= 8 {
        let v: u64 = (b[p] as u64) + 256 * (b[p + 1] as u64) + 65536 * (b[p + 2] as u64)
            + 16777216 * (b[p + 3] as u64) + 4294967296 * (b[p + 4] as u64) + 1099511627776 * (b[p
            + 5] as u64) + 281474976710656 * (b[p + 6] as u64) + 72057594037927936 * (b[p
            + 7] as u64);
        proof {
            assert(b@.subrange(p as int, p + 8)[0] == b@[p as int]);
            assert(b@.subrange(p as int, p + 8)[1] == b@[p + 1]);
            assert(b@.subrange(p as int, p + 8)[2] == b@[p + 2]);
            assert(b@.subrange(p as int, p + 8)[3] == b@[p + 3]);
            assert(b@.subrange(p as int, p + 8)[4] == b@[p + 4]);
            assert(b@.subrange(p as int, p + 8)[5] == b@[p + 5]);
            assert(b@.subrange(p as int, p + 8)[6] == b@[p + 6]);
            assert(b@.subrange(p as int, p + 8)[7] == b@[p + 7]);
        }
        Some((v, p + 8))
    } else {
        None
    }
}

/// Reads a compact-size integer at `p`, insisting on minimal form.
fn dec_varint(b: &Vec<u8>, p: usize) -> (r: Option<(u64, usize)>)
    ensures
        match r {
            Some(v) => v.1 <= b@.len() && spec_dec_varint(b@, p as int) == Some(
                (v.0, v.1 as int),
            ),
            None => spec_dec_varint(b@, p as int) is None,
        },
{
    proof {
        reveal(spec_dec_varint);
    }
    let (tag, p1) = match dec_u8(b, p) {
        Some(v) => v,
        None => {
            return None;
        },
    };
    if tag < 0xFD {
        Some((tag as u64, p1))
    } else if tag == 0xFD {
        match dec_le2(b, p1) {
            Some((v, p2)) => if v >= 0xFD {
                Some((v as u64, p2))
            } else {
                None
            },
            None => None,
        }
    } else if tag == 0xFE {
        match dec_le4(b, p1) {
            Some((v, p2)) => if v > 0xFFFF {
                Some((v as u64, p2))
            } else {
                None
            },
            None => None,
        }
    } else {
        match dec_le8(b, p1) {
            Some((v, p2)) => if v > 0xFFFFFFFF {
                Some((v, p2))
            } else {
                None
            },
            None => None,
        }
    }
}

/// Reads `n` raw bytes at `p`.
fn dec_bytes(b: &Vec<u8>, p: usize, n: u64) -> (r: Option<(Vec<u8>, usize)>)
    ensures
        match r {
            Some(v) => v.1 <= b@.len() && spec_dec_bytes(b@, p as int, n as int) == Some(
                (v.0@, v.1 as int),
            ),
            None => spec_dec_bytes(b@, p as int, n as int) is None,
        },
{
    if p > b.len() || n > (b.len() - p) as u64 {
        return None;
    }
    let count = n as usize;
    let blen = b.len();
    let mut out: Vec<u8> = Vec::new();
    let mut i: usize = 0;
    while i < count
        invariant
            i <= count,
            p + count <= blen,
            blen == b@.len(),
            out@ == b@.subrange(p as int, p + i),
        decreases count - i,
    {
        out.push(b[p + i]);
        i = i + 1;
        proof {
            assert(out@ =~= b@.subrange(p as int, p + i));
        }
    }
    Some((out, p + count))
}

/// Reads one input at `p`; its witness stack starts out empty.
fn dec_input(b: &Vec<u8>, p: usize) -> (r: Option<(TxInput, usize)>)
    ensures
        match r {
            Some(v) => v.1 <= b@.len() && spec_dec_input(b@, p as int) == Some(
                (v.0@, v.1 as int),
            ),
            None => spec_dec_input(b@, p as int) is None,
        },
{
    proof {
        reveal(spec_dec_input);
    }
    let (txid, p1) = match dec_bytes(b, p, 32) {
        Some(v) => v,
        None => {
            return None;
        },
    };
    let (vout, p2) = match dec_le4(b, p1) {
        Some(v) => v,
        None => {
            return None;
        },
    };
    let (slen, p3) = match dec_varint(b, p2) {
        Some(v) => v,
        None => {
            return None;
        },
    };
    let (script, p4) = match dec_bytes(b, p3, slen) {
        Some(v) => v,
        None => {
            return None;
        },
    };
    let (seqno, p5) = match dec_le4(b, p4) {
        Some(v) => v,
        None => {
            return None;
        },
    };
    let input = TxInput {
        previous_output: OutPoint { txid, vout },
        script_sig: script,
        sequence: seqno,
        witness: Vec::new(),
    };
    proof {
        assert(input@ =~= spec_dec_input(b@, p as int)->Some_0.0);
    }
    Some((input, p5))
}

/// Reads `n` inputs at `p`.
fn dec_inputs(b: &Vec<u8>, p0: usize, n: u64) -> (r: Option<(Vec<TxInput>, usize)>)
    requires
        p0 <= b@.len(),
    ensures
        match r {
            Some(v) => v.0@.len() == n && v.1 <= b@.len() && spec_dec_inputs(
                b@,
                p0 as int,
                n as nat,
            ) == Some((v.0@.map_values(|x: TxInput| x@), v.1 as int)),
            None => spec_dec_inputs(b@, p0 as int, n as nat) is None,
        },
{
    let mut acc: Vec<TxInput> = Vec::new();
    let mut p = p0;
    let mut k: u64 = 0;
    proof {
        assert(acc@.map_values(|x: TxInput| x@) =~= Seq::<TxInputView>::empty());
    }
    while k < n
        invariant
            k <= n,
            acc@.len() == k,
            p <= b@.len(),
            match spec_dec_inputs(b@, p as int, (n - k) as nat) {
                None => spec_dec_inputs(b@, p0 as int, n as nat) is None,
                Some(rq) => spec_dec_inputs(b@, p0 as int, n as nat) == Some(
                    (acc@.map_values(|x: TxInput| x@) + rq.0, rq.1),
                ),
            },
        decreases n - k,
    {
        let ghost accv = acc@.map_values(|x: TxInput| x@);
        let (i, p1) = match dec_input(b, p) {
            Some(v) => v,
            None => {
                return None;
            },
        };
        acc.push(i);
        p = p1;
        k = k + 1;
        proof {
            assert(acc@.map_values(|x: TxInput| x@) =~= accv.push(i@));
            match spec_dec_inputs(b@, p as int, (n - k) as nat) {
                None => {},
                Some(rq) => {
                    assert(accv + (seq![i@] + rq.0) =~= accv.push(i@) + rq.0);
                },
            }
        }
    }
    proof {
        assert(spec_dec_inputs(b@, p as int, 0) == Some(
            (Seq::<TxInputView>::empty(), p as int),
        ));
        assert(acc@.map_values(|x: TxInput| x@) + Seq::<TxInputView>::empty() =~= acc@.map_values(
            |x: TxInput| x@,
        ));
    }
    Some((acc, p))
}

/// Reads one output at `p`.
fn dec_output(b: &Vec<u8>, p: usize) -> (r: Option<(TxOutput, usize)>)
    ensures
        match r {
            Some(v) => v.1 <= b@.len() && spec_dec_output(b@, p as int) == Some(
                (v.0@, v.1 as int),
            ),
            None => spec_dec_output(b@, p as int) is None,
        },
{
    proof {
        reveal(spec_dec_output);
    }
    let (value, p1) = match dec_le8(b, p) {
        Some(v) => v,
        None => {
            return None;
        },
    };
    let (slen, p2) = match dec_varint(b, p1) {
        Some(v) => v,
        None => {
            return None;
        },
    };
    let (script, p3) = match dec_bytes(b, p2, slen) {
        Some(v) => v,
        None => {
            return None;
        },
    };
    let output = TxOutput { value, script_pubkey: script };
    proof {
        assert(output@ =~= spec_dec_output(b@, p as int)->Some_0.0);
    }
    Some((output, p3))
}

/// Reads `n` outputs at `p`.
fn dec_outputs(b: &Vec<u8>, p0: usize, n: u64) -> (r: Option<(Vec<TxOutput>, usize)>)
    requires
        p0 <= b@.len(),
    ensures
        match r {
            Some(v) => v.1 <= b@.len() && spec_dec_outputs(b@, p0 as int, n as nat) == Some(
                (v.0@.map_values(|x: TxOutput| x@), v.1 as int),
            ),
            None => spec_dec_outputs(b@, p0 as int, n as nat) is None,
        },
{
    let mut acc: Vec<TxOutput> = Vec::new();
    let mut p = p0;
    let mut k: u64 = 0;
    proof {
        assert(acc@.map_values(|x: TxOutput| x@) =~= Seq::<TxOutputView>::empty());
    }
    while k < n
        invariant
            k <= n,
            p <= b@.len(),
            match spec_dec_outputs(b@, p as int, (n - k) as nat) {
                None => spec_dec_outputs(b@, p0 as int, n as nat) is None,
                Some(rq) => spec_dec_outputs(b@, p0 as int, n as nat) == Some(
                    (acc@.map_values(|x: TxOutput| x@) + rq.0, rq.1),
                ),
            },
        decreases n - k,
    {
        let ghost accv = acc@.map_values(|x: TxOutput| x@);
        let (o, p1) = match dec_output(b, p) {
            Some(v) => v,
            None => {
                return None;
            },
        };
        acc.push(o);
        p = p1;
        k = k + 1;
        proof {
            assert(acc@.map_values(|x: TxOutput| x@) =~= accv.push(o@));
            match spec_dec_outputs(b@, p as int, (n - k) as nat) {
                None => {},
                Some(rq) => {
                    assert(accv + (seq![o@] + rq.0) =~= accv.push(o@) + rq.0);
                },
            }
        }
    }
    proof {
        assert(spec_dec_outputs(b@, p as int, 0) == Some(
            (Seq::<TxOutputView>::empty(), p as int),
        ));
        assert(acc@.map_values(|x: TxOutput| x@) + Seq::<TxOutputView>::empty() =~= acc@.map_values(
            |x: TxOutput| x@,
        ));
    }
    Some((acc, p))
}

/// Reads one witness stack at `p`.
fn dec_witness(b: &Vec<u8>, p0: usize) -> (r: Option<(Vec<Vec<u8>>, usize)>)
    ensures
        match r {
            Some(v) => v.1 <= b@.len() && spec_dec_witness(b@, p0 as int) == Some(
                (v.0@.map_values(|x: Vec<u8>| x@), v.1 as int),
            ),
            None => spec_dec_witness(b@, p0 as int) is None,
        },
{
    let (n, p1) = match dec_varint(b, p0) {
        Some(v) => v,
        None => {
            return None;
        },
    };
    let mut acc: Vec<Vec<u8>> = Vec::new();
    let mut p = p1;
    let mut k: u64 = 0;
    proof {
        assert(acc@.map_values(|x: Vec<u8>| x@) =~= Seq::<Seq<u8>>::empty());
    }
    while k < n
        invariant
            k <= n,
            p <= b@.len(),
            spec_dec_varint(b@, p0 as int) == Some((n, p1 as int)),
            match spec_dec_witness_items(b@, p as int, (n - k) as nat) {
                None => spec_dec_witness_items(b@, p1 as int, n as nat) is None,
                Some(rq) => spec_dec_witness_items(b@, p1 as int, n as nat) == Some(
                    (acc@.map_values(|x: Vec<u8>| x@) + rq.0, rq.1),
                ),
            },
        decreases n - k,
    {
        let ghost accv = acc@.map_values(|x: Vec<u8>| x@);
        let (ilen, q1) = match dec_varint(b, p) {
            Some(v) => v,
            None => {
                return None;
            },
        };
        let (item, q2) = match dec_bytes(b, q1, ilen) {
            Some(v) => v,
            None => {
                return None;
            },
        };
        acc.push(item);
        p = q2;
        k = k + 1;
        proof {
            assert(acc@.map_values(|x: Vec<u8>| x@) =~= accv.push(item@));
            match spec_dec_witness_items(b@, p as int, (n - k) as nat) {
                None => {},
                Some(rq) => {
                    assert(accv + (seq![item@] + rq.0) =~= accv.push(item@) + rq.0);
                },
            }
        }
    }
    proof {
        assert(spec_dec_witness_items(b@, p as int, 0) == Some(
            (Seq::<Seq<u8>>::empty(), p as int),
        ));
        assert(acc@.map_values(|x: Vec<u8>| x@) + Seq::<Seq<u8>>::empty() =~= acc@.map_values(
            |x: Vec<u8>| x@,
        ));
    }
    Some((acc, p))
}

/// The mathematical value of a parsed witness list.
spec fn witness_list_view(ws: Seq<Vec<Vec<u8>>>) -> Seq<Seq<Seq<u8>>> {
    ws.map_values(|w: Vec<Vec<u8>>| w@.map_values(|x: Vec<u8>| x@))
}

/// A fresh witness stack holding the same items.
fn copy_witness(w: &Vec<Vec<u8>>) -> (r: Vec<Vec<u8>>)
    ensures
        r@.map_values(|x: Vec<u8>| x@) == w@.map_values(|x: Vec<u8>| x@),
{
    let mut out: Vec<Vec<u8>> = Vec::new();
    let mut i: usize = 0;
    while i < w.len()
        invariant
            i <= w.len(),
            out@.len() == i,
            forall|j: int| 0 <= j < i ==> (#[trigger] out@[j])@ == w@[j]@,
        decreases w.len() - i,
    {
        out.push(crate::bytes::copy_bytes(&w[i]));
        i = i + 1;
    }
    proof {
        assert(out@.map_values(|x: Vec<u8>| x@) =~= w@.map_values(|x: Vec<u8>| x@));
    }
    out
}

/// Reads `n` witness stacks at `p`.
fn dec_witnesses(b: &Vec<u8>, p0: usize, n: u64) -> (r: Option<(Vec<Vec<Vec<u8>>>, usize)>)
    requires
        p0 <= b@.len(),
    ensures
        match r {
            Some(v) => v.0@.len() == n && v.1 <= b@.len() && spec_dec_witnesses(
                b@,
                p0 as int,
                n as nat,
            ) == Some((witness_list_view(v.0@), v.1 as int)),
            None => spec_dec_witnesses(b@, p0 as int, n as nat) is None,
        },
{
    let mut acc: Vec<Vec<Vec<u8>>> = Vec::new();
    let mut p = p0;
    let mut k: u64 = 0;
    proof {
        assert(witness_list_view(acc@) =~= Seq::<Seq<Seq<u8>>>::empty());
    }
    while k < n
        invariant
            k <= n,
            acc@.len() == k,
            p <= b@.len(),
            match spec_dec_witnesses(b@, p as int, (n - k) as nat) {
                None => spec_dec_witnesses(b@, p0 as int, n as nat) is None,
                Some(rq) => spec_dec_witnesses(b@, p0 as int, n as nat) == Some(
                    (witness_list_view(acc@) + rq.0, rq.1),
                ),
            },
        decreases n - k,
    {
        let ghost accv = witness_list_view(acc@);
        let (w, p1) = match dec_witness(b, p) {
            Some(v) => v,
            None => {
                return None;
            },
        };
        let ghost wv = w@.map_values(|x: Vec<u8>| x@);
        acc.push(w);
        p = p1;
        k = k + 1;
        proof {
            assert(witness_list_view(acc@) =~= accv.push(wv));
            match spec_dec_witnesses(b@, p as int, (n - k) as nat) {
                None => {},
                Some(rq) => {
                    assert(accv + (seq![wv] + rq.0) =~= accv.push(wv) + rq.0);
                },
            }
        }
    }
    proof {
        assert(spec_dec_witnesses(b@, p as int, 0) == Some(
            (Seq::<Seq<Seq<u8>>>::empty(), p as int),
        ));
        assert(witness_list_view(acc@) + Seq::<Seq<Seq<u8>>>::empty() =~= witness_list_view(acc@));
    }
    Some((acc, p))
}

/// Decodes a whole transaction from its byte form, accepting exactly the
/// encodings the specification decoder accepts.
pub fn decode_tx(bytes: &Vec<u8>) -> (r: Option<Tx>)
    ensures
        match r {
            Some(t) => spec_dec_tx(bytes@) == Some(t@),
            None => spec_dec_tx(bytes@) is None,
        },
{
    let (version, p1) = match dec_le4(bytes, 0) {
        Some(v) => v,
        None => {
            return None;
        },
    };
    let (n_in, p2) = match dec_varint(bytes, p1) {
        Some(v) => v,
        None => {
            return None;
        },
    };
    if n_in > 0 {
        let (inputs, p3) = match dec_inputs(bytes, p2, n_in) {
            Some(v) => v,
            None => {
                return None;
            },
        };
        let (n_out, p4) = match dec_varint(bytes, p3) {
            Some(v) => v,
            None => {
                return None;
            },
        };
        let (outputs, p5) = match dec_outputs(bytes, p4, n_out) {
            Some(v) => v,
            None => {
                return None;
            },
        };
        let (lock_time, p6) = match dec_le4(bytes, p5) {
            Some(v) => v,
            None => {
                return None;
            },
        };
        if p6 != bytes.len() {
            return None;
        }
        let t = Tx { version, lock_time, inputs, outputs };
        proof {
            assert(spec_dec_tx(bytes@) == Some(t@));
        }
        Some(t)
    } else {
        let (flag, p3) = match dec_u8(bytes, p2) {
            Some(v) => v,
            None => {
                return None;
            },
        };
        if flag != 1 {
            return None;
        }
        let (k_in, p4) = match dec_varint(bytes, p3) {
            Some(v) => v,
            None => {
                return None;
            },
        };
        let (mut inputs, p5) = match dec_inputs(bytes, p4, k_in) {
            Some(v) => v,
            None => {
                return None;
            },
        };
        let (n_out, p6) = match dec_varint(bytes, p5) {
            Some(v) => v,
            None => {
                return None;
            },
        };
        let (outputs, p7) = match dec_outputs(bytes, p6, n_out) {
            Some(v) => v,
            None => {
                return None;
            },
        };
        let (mut ws, p8) = match dec_witnesses(bytes, p7, k_in) {
            Some(v) => v,
            None => {
                return None;
            },
        };
        let (lock_time, p9) = match dec_le4(bytes, p8) {
            Some(v) => v,
            None => {
                return None;
            },
        };
        if p9 != bytes.len() {
            return None;
        }
        // Reject the extended form whose every witness stack is empty.
        let mut all_empty = true;
        let ghost wsv = witness_list_view(ws@);
        let mut j: usize = 0;
        while j < ws.len()
            invariant
                j <= ws@.len(),
                wsv == witness_list_view(ws@),
                all_empty == (forall|x: int| 0 <= x < j ==> (#[trigger] wsv[x]).len() == 0),
            decreases ws@.len() - j,
        {
            proof {
                assert(wsv[j as int] == ws@[j as int]@.map_values(|x: Vec<u8>| x@));
            }
            if ws[j].len() > 0 {
                all_empty = false;
                proof {
                    assert(wsv[j as int].len() > 0);
                }
            }
            j = j + 1;
        }
        if inputs.len() > 0 && all_empty {
            proof {
                assert(forall|x: int| 0 <= x < wsv.len() ==> (#[trigger] wsv[x]).len() == 0);
            }
            return None;
        }
        // Attach each stack to its input.
        let ghost inputs0 = inputs@.map_values(|x: TxInput| x@);
        let n = inputs.len();
        proof {
            assert(wsv.len() == n);
        }
        let mut i: usize = 0;
        while i < n
            invariant
                i <= n,
                n == inputs.len(),
                ws@.len() == n,
                wsv == witness_list_view(ws@),
                inputs0.len() == n,
                forall|x: int| i <= x < n ==> inputs@[x]@ == inputs0[x],
                forall|x: int|
                    0 <= x < i ==> #[trigger] inputs@[x]@ == (TxInputView {
                        witness: wsv[x],
                        ..inputs0[x]
                    }),
            decreases n - i,
        {
            let w = copy_witness(&ws[i]);
            proof {
                assert(wsv[i as int] == ws@[i as int]@.map_values(|x: Vec<u8>| x@));
                assert(w@.map_values(|x: Vec<u8>| x@) == wsv[i as int]);
            }
            let slot = &mut inputs[i];
            slot.witness = w;
            proof {
                assert(inputs@[i as int]@ =~= (TxInputView {
                    witness: wsv[i as int],
                    ..inputs0[i as int]
                }));
            }
            i = i + 1;
        }
        let t = Tx { version, lock_time, inputs, outputs };
        proof {
            assert(t@.inputs =~= spec_attach_witnesses(inputs0, wsv));
            assert(spec_dec_tx(bytes@) == Some(t@));
        }
        Some(t)
    }
}

} // verus!
