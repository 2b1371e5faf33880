//! The transaction model: inputs, outputs, witnesses, and the operations the
//! tracker reads off them (coinbase detection, witness pruning).

use vstd::prelude::*;

verus! {

/// A reference to the output of an earlier transaction.
pub struct OutPoint {
    /// The 32-byte id of the transaction holding the spent output.
    pub txid: Vec<u8>,
    /// The index of the spent output in that transaction.
    pub vout: u32,
}

/// Mathematical value of an [`OutPoint`].
#[verifier::ext_equal]
pub ghost struct OutPointView {
    pub txid: Seq<u8>,
    pub vout: u32,
}

impl View for OutPoint {
    type V = OutPointView;

    open spec fn view(&self) -> OutPointView {
        OutPointView { txid: self.txid@, vout: self.vout }
    }
}

/// One input of a transaction.
pub struct TxInput {
    /// The output this input spends.
    pub previous_output: OutPoint,
    /// The unlocking script.
    pub script_sig: Vec<u8>,
    /// The sequence number.
    pub sequence: u32,
    /// The witness stack: zero or more byte strings.
    pub witness: Vec<Vec<u8>>,
}

/// Mathematical value of a [`TxInput`].
#[verifier::ext_equal]
pub ghost struct TxInputView {
    pub previous_output: OutPointView,
    pub script_sig: Seq<u8>,
    pub sequence: u32,
    pub witness: Seq<Seq<u8>>,
}

impl View for TxInput {
    type V = TxInputView;

    open spec fn view(&self) -> TxInputView {
        TxInputView {
            previous_output: self.previous_output@,
            script_sig: self.script_sig@,
            sequence: self.sequence,
            witness: self.witness@.map_values(|w: Vec<u8>| w@),
        }
    }
}

/// One output of a transaction.
pub struct TxOutput {
    /// The amount carried, in satoshis.
    pub value: u64,
    /// The locking script.
    pub script_pubkey: Vec<u8>,
}

/// Mathematical value of a [`TxOutput`].
#[verifier::ext_equal]
pub ghost struct TxOutputView {
    pub value: u64,
    pub script_pubkey: Seq<u8>,
}

impl View for TxOutput {
    type V = TxOutputView;

    open spec fn view(&self) -> TxOutputView {
        TxOutputView { value: self.value, script_pubkey: self.script_pubkey@ }
    }
}

/// A transaction.
pub struct Tx {
    /// The transaction version field.
    pub version: u32,
    /// The lock-time field.
    pub lock_time: u32,
    /// The inputs, in consensus order.
    pub inputs: Vec<TxInput>,
    /// The outputs, in consensus order.
    pub outputs: Vec<TxOutput>,
}

/// Mathematical value of a [`Tx`].
#[verifier::ext_equal]
pub ghost struct TxView {
    pub version: u32,
    pub lock_time: u32,
    pub inputs: Seq<TxInputView>,
    pub outputs: Seq<TxOutputView>,
}

impl View for Tx {
    type V = TxView;

    open spec fn view(&self) -> TxView {
        TxView {
            version: self.version,
            lock_time: self.lock_time,
            inputs: self.inputs@.map_values(|i: TxInput| i@),
            outputs: self.outputs@.map_values(|o: TxOutput| o@),
        }
    }
}

/// A null outpoint: all-zero txid and the maximal index. Only the synthetic
/// input of a coinbase transaction carries one.
pub open spec fn spec_outpoint_is_null(o: OutPointView) -> bool {
    &&& o.txid.len() == 32
    &&& (forall|i: int| 0 <= i < o.txid.len() ==> o.txid[i] == 0u8)
    &&& o.vout == u32::MAX
}

/// A coinbase transaction: exactly one input, whose outpoint is null.
pub open spec fn spec_is_coinbase(t: TxView) -> bool {
    t.inputs.len() == 1 && spec_outpoint_is_null(t.inputs[0].previous_output)
}

/// Basic well-formedness: every outpoint txid is 32 bytes long.
pub open spec fn spec_tx_wf(t: TxView) -> bool {
    forall|i: int| 0 <= i < t.inputs.len() ==> (#[trigger] t.inputs[i]).previous_output.txid.len()
        == 32
}

/// True when the outpoint spends nothing: all-zero txid, maximal index.
pub fn outpoint_is_null(o: &OutPoint) -> (r: bool)
    ensures
        r == spec_outpoint_is_null(o@),
{
    if o.vout != u32::MAX || o.txid.len() != 32 {
        return false;
    }
    let mut i: usize = 0;
    while i < o.txid.len()
        invariant
            i <= o.txid.len(),
            o.txid.len() == 32,
            o.vout == u32::MAX,
            forall|j: int| 0 <= j < i ==> o.txid@[j] == 0u8,
        decreases o.txid.len() - i,
    {
        if o.txid[i] != 0 {
            return false;
        }
        i = i + 1;
    }
    true
}

impl Tx {
    /// True when this transaction is a coinbase.
    pub fn is_coinbase(&self) -> (r: bool)
        ensures
            r == spec_is_coinbase(self@),
    {
        self.inputs.len() == 1 && outpoint_is_null(&self.inputs[0].previous_output)
    }
}

/// `t` with every input witness cleared; all other fields unchanged.
pub open spec fn spec_prune_witnesses(t: TxView) -> TxView {
    TxView {
        inputs: t.inputs.map_values(
            |i: TxInputView| TxInputView { witness: Seq::empty(), ..i },
        ),
        ..t
    }
}

/// Clears the witness stack of every input, in place. Scripts are retained.
pub fn prune_large_witnesses(tx: &mut Tx)
    ensures
        final(tx)@ == spec_prune_witnesses(old(tx)@),
{
    let n = tx.inputs.len();
    let mut i: usize = 0;
    while i < n
        invariant
            i <= n,
            n == tx.inputs.len(),
            tx.version == old(tx).version,
            tx.lock_time == old(tx).lock_time,
            tx.outputs == old(tx).outputs,
            forall|j: int| i <= j < n ==> tx.inputs@[j] == old(tx).inputs@[j],
            forall|j: int|
                0 <= j < i ==> #[trigger] tx.inputs@[j]@ == (TxInputView {
                    witness: Seq::empty(),
                    ..old(tx).inputs@[j]@
                }),
        decreases n - i,
    {
        let input = &mut tx.inputs[i];
        input.witness = Vec::new();
        proof {
            assert(tx.inputs@[i as int]@ =~= TxInputView {
                witness: Seq::empty(),
                ..old(tx).inputs@[i as int]@
            });
        }
        i = i + 1;
    }
    proof {
        assert(tx@.inputs =~= spec_prune_witnesses(old(tx)@).inputs);
        assert(tx@ =~= spec_prune_witnesses(old(tx)@));
    }
}

} // verus!
