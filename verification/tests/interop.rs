//! Cross-checks against the upstream consensus implementation: the
//! library's encoder, decoder, transaction ids and inputs-hash must agree
//! with the reference crates byte for byte.

use bitcoin::absolute::LockTime;
use bitcoin::consensus::encode::serialize;
use bitcoin::transaction::Version;
use bitcoin::{Amount, ScriptBuf, Sequence, Witness};

use mempool_tracker::decode::decode_tx;
use mempool_tracker::digest::{compute_txid, get_inputs_hash, txid_hex};
use mempool_tracker::encode::{encode_tx, encode_tx_base};
use mempool_tracker::tx::{OutPoint, Tx, TxInput, TxOutput};

fn sample_pair(with_witness: bool) -> (Tx, bitcoin::Transaction) {
    let prev_txid_bytes = [7u8; 32];
    let script_sig = vec![0x51, 0x52];
    let script_pubkey = vec![0x00, 0x14, 0xAB, 0xCD];
    let witness_items: Vec<Vec<u8>> = vec![vec![0xAA; 3], vec![]];

    let ours = Tx {
        version: 2,
        lock_time: 123_456,
        inputs: vec![TxInput {
            previous_output: OutPoint {
                txid: prev_txid_bytes.to_vec(),
                vout: 3,
            },
            script_sig: script_sig.clone(),
            sequence: 0xFFFF_FFFD,
            witness: if with_witness {
                witness_items.clone()
            } else {
                vec![]
            },
        }],
        outputs: vec![TxOutput {
            value: 98_765,
            script_pubkey: script_pubkey.clone(),
        }],
    };

    let theirs = bitcoin::Transaction {
        version: Version(2),
        lock_time: LockTime::from_consensus(123_456),
        input: vec![bitcoin::TxIn {
            previous_output: bitcoin::OutPoint {
                txid: <bitcoin::Txid as bitcoin::hashes::Hash>::from_byte_array(prev_txid_bytes),
                vout: 3,
            },
            script_sig: ScriptBuf::from_bytes(script_sig),
            sequence: Sequence(0xFFFF_FFFD),
            witness: if with_witness {
                Witness::from_slice(&witness_items)
            } else {
                Witness::new()
            },
        }],
        output: vec![bitcoin::TxOut {
            value: Amount::from_sat(98_765),
            script_pubkey: ScriptBuf::from_bytes(script_pubkey),
        }],
    };

    (ours, theirs)
}

/// The base (witness-stripped) encoding matches the reference crate's
/// serialization of the same witness-free transaction.
#[test]
fn base_encoding_matches_reference() {
    let (ours, theirs) = sample_pair(false);
    assert_eq!(encode_tx(&ours), serialize(&theirs));
    assert_eq!(encode_tx_base(&ours), serialize(&theirs));
}

/// The extended encoding, with marker, flag and witness section, matches
/// the reference crate byte for byte.
#[test]
fn extended_encoding_matches_reference() {
    let (ours, theirs) = sample_pair(true);
    assert_eq!(encode_tx(&ours), serialize(&theirs));
}

/// The transaction id is the one the reference crate computes, with and
/// without witness data, and the hex form is its display form.
#[test]
fn txid_matches_reference() {
    for with_witness in [false, true] {
        let (ours, theirs) = sample_pair(with_witness);
        let reference: [u8; 32] = <bitcoin::Txid as bitcoin::hashes::Hash>::to_byte_array(
            theirs.compute_txid(),
        );
        assert_eq!(compute_txid(&ours), reference.to_vec());
        // The display form reverses the bytes; the stored hex form does not.
        assert_eq!(txid_hex(&ours), hex::encode(reference));
    }
}

/// Decoding bytes produced by the reference crate yields the same fields.
#[test]
fn decode_reference_bytes() {
    for with_witness in [false, true] {
        let (ours, theirs) = sample_pair(with_witness);
        let decoded = decode_tx(&serialize(&theirs)).expect("reference bytes decode");
        assert_eq!(decoded.version, ours.version);
        assert_eq!(decoded.lock_time, ours.lock_time);
        assert_eq!(decoded.inputs.len(), ours.inputs.len());
        assert_eq!(
            decoded.inputs[0].previous_output.txid,
            ours.inputs[0].previous_output.txid
        );
        assert_eq!(decoded.inputs[0].previous_output.vout, 3);
        assert_eq!(decoded.inputs[0].script_sig, ours.inputs[0].script_sig);
        assert_eq!(decoded.inputs[0].sequence, ours.inputs[0].sequence);
        assert_eq!(decoded.inputs[0].witness, ours.inputs[0].witness);
        assert_eq!(decoded.outputs[0].value, 98_765);
        assert_eq!(decoded.outputs[0].script_pubkey, ours.outputs[0].script_pubkey);
    }
}

/// The inputs-hash is the lowercase hex of SHA-256 over the concatenated
/// consensus encodings of the inputs, as computed with the reference
/// hashing and hex crates directly. A digest or hex step that handed its
/// input back unchanged would fail this.
#[test]
fn inputs_hash_matches_reference_formula() {
    let (ours, theirs) = sample_pair(true);
    let mut concatenated: Vec<u8> = Vec::new();
    for input in &theirs.input {
        concatenated.extend_from_slice(&serialize(input));
    }
    let digest = bitcoin_hashes::Sha256::hash(&concatenated).to_byte_array();
    let expected = hex::encode(digest);
    assert_eq!(get_inputs_hash(&ours), expected);
    assert_ne!(expected.as_bytes(), concatenated.as_slice());
}
