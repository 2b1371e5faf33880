//! Scenario tests against the store model: the lifecycle a tracker drives
//! it through, and the edge cases of each operation.

use mempool_tracker::decode::decode_tx;
use mempool_tracker::digest::{compute_txid, get_inputs_hash};
use mempool_tracker::encode::{encode_tx, encode_tx_base};
use mempool_tracker::fee::{get_absolute_fee, compute_fee_rate, prevouts_to_fetch};
use mempool_tracker::migrations::MigrationId;
use mempool_tracker::store::Store;
use mempool_tracker::tx::{outpoint_is_null, prune_large_witnesses, OutPoint, Tx, TxInput, TxOutput};
use mempool_tracker::worker::{process_raw_tx, Classification, ProcessError};
use mempool_tracker::zmq_factory::BitcoinZmqFactory;

fn mk_outpoint(tag: u8, vout: u32) -> OutPoint {
    OutPoint {
        txid: vec![tag; 32],
        vout,
    }
}

fn null_outpoint() -> OutPoint {
    OutPoint {
        txid: vec![0u8; 32],
        vout: u32::MAX,
    }
}

fn mk_input(prev: OutPoint) -> TxInput {
    TxInput {
        previous_output: prev,
        script_sig: vec![0x51],
        sequence: 0xFFFF_FFFD,
        witness: vec![],
    }
}

fn mk_output(value: u64) -> TxOutput {
    TxOutput {
        value,
        script_pubkey: vec![0x00, 0x14, 0xAB],
    }
}

fn mk_tx(inputs: Vec<TxInput>, outputs: Vec<TxOutput>) -> Tx {
    Tx {
        version: 2,
        lock_time: 0,
        inputs,
        outputs,
    }
}

fn coinbase_tx() -> Tx {
    let mut input = mk_input(null_outpoint());
    input.script_sig = vec![0x03, 0x01, 0x02, 0x03];
    mk_tx(vec![input], vec![mk_output(50_000_000)])
}

/// Mining an empty block: the coinbase is recorded under its own id, as
/// mined, with zero fee, and its stored bytes decode to a one-input
/// transaction with a null outpoint.
#[test]
fn empty_block_coinbase_recorded() {
    let mut store = Store::new();
    let cb = coinbase_tx();
    let txid = compute_txid(&cb);
    store.record_coinbase_tx(&cb, 100);

    assert_eq!(store.txs.len(), 1);
    let fetched = store.get_tx_by_txid(&txid);
    assert!(fetched.is_some(), "the coinbase must be in the store");
    let tx = fetched.unwrap();
    assert_eq!(tx.inputs.len(), 1, "a coinbase has one input");
    assert!(outpoint_is_null(&tx.inputs[0].previous_output));
    assert_eq!(store.is_mined(&txid), Some(true));
    assert_eq!(store.txs[0].absolute_fee, 0);
    assert_eq!(store.txs[0].fee_rate, 0);
    assert_eq!(store.txs[0].found_at, 100);
    assert_eq!(store.txs[0].mined_at, Some(100));
}

/// Three sends: each present and unmined, then each mined after the block.
#[test]
fn block_with_three_transactions() {
    let mut store = Store::new();
    let mut txids = vec![];
    for tag in 1u8..4u8 {
        let tx = mk_tx(vec![mk_input(mk_outpoint(tag, 0))], vec![mk_output(50_000)]);
        let txid = compute_txid(&tx);
        store.insert_mempool_tx(&tx, None, 500, 2, 100);
        txids.push((tx, txid));
    }
    for (_, txid) in &txids {
        assert!(store.get_tx_by_txid(txid).is_some());
        assert_eq!(store.is_mined(txid), Some(false));
    }
    for (tx, _) in &txids {
        store.record_mined_tx(tx, 200);
    }
    for (_, txid) in &txids {
        assert_eq!(store.is_mined(txid), Some(true));
    }
    assert_eq!(store.txs.len(), 3);
}

/// A fee bump: the row keeps its key, its id moves to the replacement, and
/// one replacement row records the round.
#[test]
fn rbf_bump() {
    let mut store = Store::new();
    let tx_a = mk_tx(vec![mk_input(mk_outpoint(7, 1))], vec![mk_output(50_000)]);
    let txid_a = compute_txid(&tx_a);
    store.insert_mempool_tx(&tx_a, None, 300, 1, 100);
    assert!(store.get_tx_by_txid(&txid_a).is_some());
    assert!(!store.is_rbf(&txid_a));

    // Same inputs, smaller change output: a higher fee.
    let tx_b = mk_tx(vec![mk_input(mk_outpoint(7, 1))], vec![mk_output(49_000)]);
    let txid_b = compute_txid(&tx_b);
    assert!(store.tx_exists(&tx_b), "the bump shares the inputs-hash");
    store.record_rbf(&tx_b, 1_300, 150);
    store.update_txid_by_inputs_hash(&tx_b);

    assert_eq!(store.txs.len(), 1, "the bump must not add a row");
    assert!(store.get_tx_by_txid(&txid_b).is_some());
    assert!(store.is_rbf(&txid_b));
    assert_eq!(store.rbf.len(), 1);
    assert_eq!(store.rbf[0].replaces, txid_b);
    assert_eq!(store.rbf[0].fee_total, 1_300);
    assert_eq!(store.rbf[0].inputs_hash, store.txs[0].inputs_hash);
}

/// A second round under the same inputs-hash replaces the replacement row
/// rather than adding one.
#[test]
fn rbf_rows_keyed_by_inputs_hash() {
    let mut store = Store::new();
    let tx_a = mk_tx(vec![mk_input(mk_outpoint(9, 0))], vec![mk_output(40_000)]);
    store.insert_mempool_tx(&tx_a, None, 200, 1, 100);
    let tx_b = mk_tx(vec![mk_input(mk_outpoint(9, 0))], vec![mk_output(39_000)]);
    let tx_c = mk_tx(vec![mk_input(mk_outpoint(9, 0))], vec![mk_output(38_000)]);
    store.record_rbf(&tx_b, 1_200, 150);
    store.record_rbf(&tx_c, 2_200, 160);
    assert_eq!(store.rbf.len(), 1, "one row per replaced inputs-hash");
    assert_eq!(store.rbf[0].replaces, compute_txid(&tx_c));
}

/// A replacement for an unknown inputs-hash is a documented no-op.
#[test]
fn rbf_unknown_inputs_hash_ignored() {
    let mut store = Store::new();
    let tx = mk_tx(vec![mk_input(mk_outpoint(8, 0))], vec![mk_output(10_000)]);
    store.record_rbf(&tx, 1_000, 100);
    assert_eq!(store.rbf.len(), 0);
    assert_eq!(store.txs.len(), 0);
}

/// CPFP linkage: the child's insert marks the live parent and links both.
#[test]
fn cpfp_linkage() {
    let mut store = Store::new();
    let parent = mk_tx(vec![mk_input(mk_outpoint(3, 0))], vec![mk_output(100_000)]);
    let parent_txid = compute_txid(&parent);
    store.insert_mempool_tx(&parent, None, 400, 2, 100);
    assert_eq!(store.is_cpfp_parent(&parent_txid), Some(false));
    assert_eq!(store.txs[0].child_txid, None);

    let child = mk_tx(
        vec![mk_input(OutPoint {
            txid: parent_txid.clone(),
            vout: 0,
        })],
        vec![mk_output(50_000)],
    );
    let child_txid = compute_txid(&child);
    store.insert_mempool_tx(&child, None, 50_000, 300, 150);

    assert_eq!(store.is_cpfp_parent(&parent_txid), Some(true));
    assert_eq!(store.txs[0].child_txid, Some(child_txid.clone()));
    assert_eq!(store.txs[1].parent_txid, Some(parent_txid.clone()));
    assert_eq!(store.is_cpfp_parent(&child_txid), Some(false));
}

/// Prune after eviction: the sweep marks exactly the live ids the node no
/// longer reports.
#[test]
fn prune_after_eviction() {
    let mut store = Store::new();
    let tx_x = mk_tx(vec![mk_input(mk_outpoint(5, 0))], vec![mk_output(20_000)]);
    let txid_x = compute_txid(&tx_x);
    store.insert_mempool_tx(&tx_x, None, 250, 1, 100);

    let upstream = vec![vec![0x44u8; 32]];
    let gone = store.txids_of_txs_not_in_list(&upstream);
    assert_eq!(gone, vec![txid_x.clone()]);
    store.record_pruned_txs(&gone, 180);

    assert!(store.txs[0].pruned_at.is_some());
    assert!(store.txs[0].mined_at.is_none());
}

/// An empty upstream list prunes nothing.
#[test]
fn empty_upstream_list_prunes_nothing() {
    let mut store = Store::new();
    let tx = mk_tx(vec![mk_input(mk_outpoint(6, 0))], vec![mk_output(30_000)]);
    store.insert_mempool_tx(&tx, None, 100, 1, 100);
    let gone = store.txids_of_txs_not_in_list(&vec![]);
    assert!(gone.is_empty());
}

/// Startup skips stale: one live and one mined row, and only the mined row
/// survives the startup sweep.
#[test]
fn startup_skips_stale() {
    let mut store = Store::new();
    let live = mk_tx(vec![mk_input(mk_outpoint(1, 0))], vec![mk_output(10_000)]);
    let mined = mk_tx(vec![mk_input(mk_outpoint(2, 0))], vec![mk_output(20_000)]);
    let mined_txid = compute_txid(&mined);
    store.insert_mempool_tx(&live, None, 100, 1, 100);
    store.insert_mempool_tx(&mined, None, 200, 1, 110);
    store.record_mined_tx(&mined, 120);

    store.remove_stale_txs();

    assert_eq!(store.txs.len(), 1);
    assert_eq!(store.txs[0].tx_id, mined_txid);
}

/// Inserting the same transaction twice with the same arguments leaves the
/// state a single insert leaves.
#[test]
fn insert_mempool_tx_idempotent() {
    let tx = mk_tx(vec![mk_input(mk_outpoint(4, 2))], vec![mk_output(70_000)]);
    let mut once = Store::new();
    once.insert_mempool_tx(&tx, Some(90), 500, 2, 100);
    let mut twice = Store::new();
    twice.insert_mempool_tx(&tx, Some(90), 500, 2, 100);
    twice.insert_mempool_tx(&tx, Some(90), 500, 2, 100);

    assert_eq!(once.txs.len(), twice.txs.len());
    assert_eq!(once.txs[0].inputs_hash, twice.txs[0].inputs_hash);
    assert_eq!(once.txs[0].tx_id, twice.txs[0].tx_id);
    assert_eq!(once.txs[0].tx_data, twice.txs[0].tx_data);
    assert_eq!(once.txs[0].found_at, twice.txs[0].found_at);
    assert_eq!(once.txs[0].child_txid, twice.txs[0].child_txid);
    assert_eq!(once.txs[0].parent_txid, twice.txs[0].parent_txid);
    assert_eq!(once.txs[0].is_cpfp_parent, twice.txs[0].is_cpfp_parent);
}

/// Running the migrations twice has the effect of running them once.
#[test]
fn run_migrations_twice() {
    let mut store = Store::new();
    store.run_migrations(100);
    assert_eq!(store.ledger.len(), 4);
    assert_eq!(store.ledger[0].id, MigrationId::RenameParentToChild);
    assert_eq!(store.ledger[1].id, MigrationId::AddSeenInMempool);
    assert_eq!(store.ledger[2].id, MigrationId::AddReplaces);
    assert_eq!(store.ledger[3].id, MigrationId::AddParentTxid);
    assert!(store.schema.child_txid_renamed);
    assert!(store.schema.has_seen_in_mempool);
    assert!(store.schema.has_replaces);
    assert!(store.schema.has_parent_txid);
    let ledger_before = store.ledger.clone();
    store.run_migrations(900);
    assert_eq!(store.ledger, ledger_before);
}

/// Recording the same coinbase twice leaves exactly one row.
#[test]
fn record_coinbase_twice_one_row() {
    let mut store = Store::new();
    let cb = coinbase_tx();
    store.record_coinbase_tx(&cb, 100);
    store.record_coinbase_tx(&cb, 100);
    assert_eq!(store.txs.len(), 1);
    assert_eq!(store.txs[0].found_at, 100);
    assert_eq!(store.txs[0].mined_at, Some(100));
}

/// A non-coinbase transaction is refused by the coinbase recorder.
#[test]
fn record_coinbase_refuses_ordinary_tx() {
    let mut store = Store::new();
    let tx = mk_tx(vec![mk_input(mk_outpoint(1, 0))], vec![mk_output(10_000)]);
    store.record_coinbase_tx(&tx, 100);
    assert_eq!(store.txs.len(), 0);
}

/// A mined transaction never seen in the pool still gets a row, marked so.
#[test]
fn record_mined_unknown_tx() {
    let mut store = Store::new();
    let tx = mk_tx(vec![mk_input(mk_outpoint(2, 1))], vec![mk_output(5_000)]);
    store.record_mined_tx(&tx, 140);
    assert_eq!(store.txs.len(), 1);
    assert!(!store.txs[0].seen_in_mempool);
    assert_eq!(store.txs[0].mined_at, Some(140));
}

/// Mining a known transaction strips its witnesses in the stored bytes;
/// scripts and outputs survive byte for byte.
#[test]
fn record_mined_prunes_witnesses() {
    let mut store = Store::new();
    let mut tx = mk_tx(vec![mk_input(mk_outpoint(3, 1))], vec![mk_output(9_000)]);
    tx.inputs[0].witness = vec![vec![0xAA; 72], vec![0xBB; 33]];
    let txid = compute_txid(&tx);
    store.insert_mempool_tx(&tx, None, 100, 1, 100);
    store.record_mined_tx(&tx, 200);

    let stored = store.get_tx_by_txid(&txid).expect("mined row decodes");
    assert_eq!(stored.inputs.len(), 1);
    assert!(stored.inputs[0].witness.is_empty());
    assert_eq!(stored.inputs[0].script_sig, tx.inputs[0].script_sig);
    assert_eq!(stored.outputs.len(), 1);
    assert_eq!(stored.outputs[0].value, 9_000);
    assert_eq!(stored.outputs[0].script_pubkey, tx.outputs[0].script_pubkey);
}

/// Witness pruning in place clears stacks and nothing else.
#[test]
fn prune_large_witnesses_clears_stacks() {
    let mut tx = mk_tx(vec![mk_input(mk_outpoint(3, 1))], vec![mk_output(9_000)]);
    tx.inputs[0].witness = vec![vec![1, 2, 3]];
    let script = tx.inputs[0].script_sig.clone();
    prune_large_witnesses(&mut tx);
    assert!(tx.inputs[0].witness.is_empty());
    assert_eq!(tx.inputs[0].script_sig, script);
}

/// The absolute fee is the input total minus the output total; a negative
/// difference is an error, and a coinbase pays nothing.
#[test]
fn absolute_fee_arithmetic() {
    let tx = mk_tx(
        vec![mk_input(mk_outpoint(1, 0)), mk_input(mk_outpoint(2, 0))],
        vec![mk_output(60_000), mk_output(39_000)],
    );
    assert_eq!(get_absolute_fee(&tx, &vec![70_000, 30_000]), Some(1_000));
    assert_eq!(get_absolute_fee(&tx, &vec![50_000, 30_000]), None, "negative fee");
    assert_eq!(get_absolute_fee(&tx, &vec![70_000]), None, "wrong value count");
    assert_eq!(get_absolute_fee(&coinbase_tx(), &vec![]), Some(0));
}

/// The fee rate is the fee divided by the virtual size, rounded down, and
/// zero for a coinbase and for a zero fee.
#[test]
fn fee_rate_arithmetic() {
    let tx = mk_tx(vec![mk_input(mk_outpoint(1, 0))], vec![mk_output(10_000)]);
    let base = encode_tx_base(&tx).len() as u64;
    let total = encode_tx(&tx).len() as u64;
    let vbytes = (3 * base + total + 3) / 4;
    assert_eq!(compute_fee_rate(&tx, 1_000), Some(1_000 / vbytes));
    assert_eq!(compute_fee_rate(&tx, 0), Some(0));
    assert_eq!(compute_fee_rate(&coinbase_tx(), 1_000), Some(0));
}

/// The resolver asks for exactly the real outpoints, in input order.
#[test]
fn prevouts_to_fetch_skips_null() {
    let tx = mk_tx(
        vec![mk_input(null_outpoint()), mk_input(mk_outpoint(2, 5))],
        vec![mk_output(1_000)],
    );
    let wanted = prevouts_to_fetch(&tx);
    assert_eq!(wanted.len(), 1);
    assert_eq!(wanted[0].0, vec![2u8; 32]);
    assert_eq!(wanted[0].1, 5);
}

/// The worker drops undecodable payloads without touching the store.
#[test]
fn process_raw_tx_decode_error() {
    let mut store = Store::new();
    let r = process_raw_tx(&mut store, &vec![0xDE, 0xAD], 0, &vec![], 100);
    assert_eq!(r, Err(ProcessError::Decode));
    assert_eq!(store.txs.len(), 0);
}

/// The worker's classification matches the decision order: coinbase, then
/// mined, then replacement, then new.
#[test]
fn process_raw_tx_classifications() {
    let mut store = Store::new();

    let cb = coinbase_tx();
    let r = process_raw_tx(&mut store, &encode_tx(&cb), 0, &vec![], 100);
    assert_eq!(r, Ok(Classification::Coinbase));

    let tx = mk_tx(vec![mk_input(mk_outpoint(1, 0))], vec![mk_output(10_000)]);
    let r = process_raw_tx(&mut store, &encode_tx(&tx), 0, &vec![10_500], 110);
    assert_eq!(r, Ok(Classification::New));
    assert_eq!(store.is_mined(&compute_txid(&tx)), Some(false));

    let bump = mk_tx(vec![mk_input(mk_outpoint(1, 0))], vec![mk_output(9_500)]);
    let r = process_raw_tx(&mut store, &encode_tx(&bump), 0, &vec![10_500], 120);
    assert_eq!(r, Ok(Classification::Replacement));

    let other = mk_tx(vec![mk_input(mk_outpoint(2, 0))], vec![mk_output(8_000)]);
    let r = process_raw_tx(&mut store, &encode_tx(&other), 3, &vec![8_400], 130);
    assert_eq!(r, Ok(Classification::Mined));
    assert_eq!(store.is_mined(&compute_txid(&other)), Some(true));

    let starved = mk_tx(vec![mk_input(mk_outpoint(3, 0))], vec![mk_output(8_000)]);
    let r = process_raw_tx(&mut store, &encode_tx(&starved), 0, &vec![7_000], 140);
    assert_eq!(r, Err(ProcessError::Fee));
}

/// Encoding then decoding returns the transaction, with and without
/// witness data.
#[test]
fn encode_decode_round_trip() {
    let mut tx = mk_tx(
        vec![mk_input(mk_outpoint(1, 0)), mk_input(mk_outpoint(2, 7))],
        vec![mk_output(1_234), mk_output(567)],
    );
    let legacy = decode_tx(&encode_tx(&tx)).expect("legacy form decodes");
    assert_eq!(legacy.version, tx.version);
    assert_eq!(legacy.inputs.len(), 2);
    assert_eq!(legacy.inputs[1].previous_output.vout, 7);
    assert_eq!(legacy.outputs[1].value, 567);

    tx.inputs[0].witness = vec![vec![9, 9], vec![]];
    let seg = decode_tx(&encode_tx(&tx)).expect("extended form decodes");
    assert_eq!(seg.inputs[0].witness, vec![vec![9u8, 9], vec![]]);
    assert_eq!(seg.inputs[1].witness.len(), 0);
    assert_eq!(seg.lock_time, tx.lock_time);
}

/// Trailing bytes after a transaction are refused.
#[test]
fn decode_rejects_trailing_bytes() {
    let tx = mk_tx(vec![mk_input(mk_outpoint(1, 0))], vec![mk_output(10)]);
    let mut bytes = encode_tx(&tx);
    assert!(decode_tx(&bytes).is_some());
    bytes.push(0x00);
    assert!(decode_tx(&bytes).is_none());
}

/// The inputs-hash hex key has one lowercase pair per digest byte and does
/// not depend on outputs or witnesses.
#[test]
fn inputs_hash_stable_under_outputs_and_witnesses() {
    let tx1 = mk_tx(vec![mk_input(mk_outpoint(1, 0))], vec![mk_output(10_000)]);
    let mut tx2 = mk_tx(vec![mk_input(mk_outpoint(1, 0))], vec![mk_output(99)]);
    tx2.inputs[0].witness = vec![vec![0xCC; 16]];
    tx2.lock_time = 7;
    let h1 = get_inputs_hash(&tx1);
    let h2 = get_inputs_hash(&tx2);
    assert_eq!(h1, h2);
    assert_eq!(h1.len(), 64);
    assert!(h1.chars().all(|c| c.is_ascii_hexdigit() && !c.is_ascii_uppercase()));

    let tx3 = mk_tx(vec![mk_input(mk_outpoint(2, 0))], vec![mk_output(10_000)]);
    assert_ne!(h1, get_inputs_hash(&tx3), "different inputs, different key");
}

/// Snapshots and mining-info rows append without overwriting history.
#[test]
fn snapshots_and_mining_info_append() {
    let mut store = Store::new();
    store.record_mempool_state(1_000, 5, 800_000, vec![0x11; 32], 100);
    store.record_mempool_state(2_000, 9, 800_001, vec![0x22; 32], 125);
    assert_eq!(store.snapshots.len(), 2);
    assert_eq!(store.snapshots[0].block_height, 800_000);
    assert_eq!(store.snapshots[1].tx_count, 9);

    store.record_mining_info(String::from("{\"pools\":[]}"), 130);
    assert_eq!(store.mining_info.len(), 1);
    assert_eq!(store.mining_info[0].hash_rate_distribution, "{\"pools\":[]}");
}

/// The stream address is carried as given.
#[test]
fn zmq_factory_carries_address() {
    let f = BitcoinZmqFactory::new(String::from("127.0.0.1"), 28_332);
    assert_eq!(f.bitcoind_host, "127.0.0.1");
    assert_eq!(f.bitcoind_zmq_port, 28_332);
}
