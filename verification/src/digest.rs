//! Digests and their text form: the SHA-256 based transaction identities the
//! store keys on, and lowercase hex encoding.

use vstd::prelude::*;

use crate::encode::{encode_tx_base, push_inputs, spec_enc_inputs, spec_enc_tx_base};
use crate::tx::{Tx, TxInput, TxView};

verus! {

/// The SHA-256 digest of a byte sequence.
pub uninterp spec fn sha256_of(b: Seq<u8>) -> Seq<u8>;

/// Relies on `bitcoin_hashes::Sha256::hash`: the digest is a function of the
/// input bytes alone, and is 32 bytes long.
#[verifier::external_body]
fn sha256(data: &Vec<u8>) -> (r: Vec<u8>)
    ensures
        r@ == sha256_of(data@),
        r@.len() == 32,
{
    bitcoin_hashes::Sha256::hash(data.as_slice()).to_byte_array().to_vec()
}

/// The lowercase hex digit for a value below sixteen.
pub open spec fn spec_hex_digit(n: int) -> char {
    seq!['0', '1', '2', '3', '4', '5', '6', '7', '8', '9', 'a', 'b', 'c', 'd', 'e', 'f'][n]
}

/// Lowercase hex encoding: two digits per byte, high nibble first.
pub open spec fn spec_hex(b: Seq<u8>) -> Seq<char>
    decreases b.len(),
{
    if b.len() == 0 {
        Seq::empty()
    } else {
        spec_hex(b.drop_last()) + seq![
            spec_hex_digit(b.last() as int / 16),
            spec_hex_digit(b.last() as int % 16),
        ]
    }
}

/// Relies on `hex::encode`: two lowercase hex digits per byte, high nibble
/// first, in byte order.
#[verifier::external_body]
fn to_hex(data: &Vec<u8>) -> (r: String)
    ensures
        r@ == spec_hex(data@),
{
    hex::encode(data.as_slice())
}

/// The transaction id: SHA-256 applied twice to the base encoding, so witness
/// data never enters it.
pub open spec fn spec_txid(t: TxView) -> Seq<u8> {
    sha256_of(sha256_of(spec_enc_tx_base(t)))
}

/// Computes the 32-byte transaction id of `tx`.
pub fn compute_txid(tx: &Tx) -> (r: Vec<u8>)
    ensures
        r@ == spec_txid(tx@),
        r@.len() == 32,
{
    let base = encode_tx_base(tx);
    let first = sha256(&base);
    sha256(&first)
}

/// The inputs-hash: SHA-256 over the concatenated base encodings of the
/// inputs, in order. It identifies a transaction across fee bumps that spend
/// the same outpoint set.
pub open spec fn spec_inputs_digest(t: TxView) -> Seq<u8> {
    sha256_of(spec_enc_inputs(t.inputs))
}

/// Computes the 32-byte inputs-hash of `tx`.
pub fn inputs_digest(tx: &Tx) -> (r: Vec<u8>)
    ensures
        r@ == spec_inputs_digest(tx@),
        r@.len() == 32,
{
    let mut buf: Vec<u8> = Vec::new();
    push_inputs(&mut buf, &tx.inputs);
    sha256(&buf)
}

/// The inputs-hash of `tx` as a lowercase hex string, the form under which
/// it is persisted as a primary key.
pub fn get_inputs_hash(tx: &Tx) -> (r: String)
    ensures
        r@ == spec_hex(spec_inputs_digest(tx@)),
{
    let digest = inputs_digest(tx);
    to_hex(&digest)
}

/// The transaction id of `tx` as a lowercase hex string over its bytes.
pub fn txid_hex(tx: &Tx) -> (r: String)
    ensures
        r@ == spec_hex(spec_txid(tx@)),
{
    let digest = compute_txid(tx);
    to_hex(&digest)
}

/// Hex form of any digest held by the store.
pub fn digest_hex(digest: &Vec<u8>) -> (r: String)
    ensures
        r@ == spec_hex(digest@),
{
    to_hex(digest)
}

} // verus!
