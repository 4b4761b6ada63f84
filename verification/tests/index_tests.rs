use explorer_index::chain::{Block, BlockInfo, Outpoint, SlpToken, SlpTransactionInfo, SlpTxAction,
    SlpValidity, Transaction, TransactionData, TxInput, TxOutput, TxidsOrTxs, TxMetadata,
    GenesisInfo, is_coinbase};
use explorer_index::db::IndexDb;
use explorer_index::keys::AddrKeyPrefix;
use explorer_index::pipeline::{update_mempool, Pipeline};
use explorer_index::records::{SlpAction, TxMetaVariant};
use explorer_index::schema::make_block_batches;

fn p2pkh_script(h: u8) -> Vec<u8> {
    let mut s = vec![0x76u8, 0xa9, 20];
    s.extend_from_slice(&[h; 20]);
    s.push(0x88);
    s.push(0xac);
    s
}

fn addr_of(h: u8) -> AddrKeyPrefix {
    AddrKeyPrefix { addr_type: 0, addr_hash: [h; 20] }
}

fn coinbase_input() -> TxInput {
    TxInput {
        outpoint: Some(Outpoint { hash: [0u8; 32], index: 0xffff_ffff }),
        signature_script: vec![1, 2, 3],
        value: 0,
        previous_script: Vec::new(),
        slp_token: None,
    }
}

fn coinbase_tx(height: i32, tx_hash: [u8; 32], pay_to: u8, sats: i64) -> Transaction {
    Transaction {
        hash: tx_hash,
        inputs: vec![coinbase_input()],
        outputs: vec![TxOutput { value: sats, pubkey_script: p2pkh_script(pay_to), slp_token: None }],
        size: 200,
        timestamp: 1_600_000_000 + height as i64,
        block_height: height,
        slp_transaction_info: None,
    }
}

fn block_of(height: i32, hash: [u8; 32], txs: Vec<Transaction>) -> Block {
    let transaction_data = txs
        .into_iter()
        .map(|t| TransactionData { txids_or_txs: Some(TxidsOrTxs::Transaction(t)) })
        .collect();
    Block {
        info: Some(BlockInfo {
            hash,
            height,
            version: 1,
            previous_block: [0u8; 32],
            merkle_root: [0u8; 32],
            timestamp: 1_600_000_000 + height as i64,
            bits: 0x1d00ffff,
            nonce: 42,
            difficulty_bits: 0,
            median_time: 1_600_000_000,
            size: 1000,
        }),
        transaction_data,
    }
}

fn commit_block(db: &mut IndexDb, block: Block) {
    let bb = make_block_batches(block).expect("block batch");
    db.apply_block_batches(&bb);
}

fn hash_of(n: u8) -> [u8; 32] {
    [n; 32]
}

#[test]
fn empty_chain_defaults() {
    let db = IndexDb::open_empty();
    assert_eq!(db.last_block_height(), Ok(0));
    let range = db.block_range(0, 10).expect("range");
    assert!(range.is_empty());
}

#[test]
fn empty_address_queries() {
    let db = IndexDb::open_empty();
    let addr = addr_of(7);
    assert_eq!(db.address_num_txs(&addr), 0);
    let rows = db.address(&addr, 0, 0).expect("address");
    assert!(rows.is_empty());
    let rows = db.address(&addr, usize::MAX, 50).expect("address");
    assert!(rows.is_empty());
}

#[test]
fn three_coinbase_blocks() {
    let mut db = IndexDb::open_empty();
    let fifty: i64 = 50 * 100_000_000;
    for h in 1..=3i32 {
        let tx = coinbase_tx(h, hash_of(10 + h as u8), 7, fifty);
        commit_block(&mut db, block_of(h, hash_of(h as u8), vec![tx]));
    }
    assert_eq!(db.last_block_height(), Ok(3));
    assert_eq!(db.block_hash_at(2), Ok(Some(hash_of(2))));
    let addr = addr_of(7);
    assert_eq!(db.address_num_txs(&addr), 3);
    let rows = db.address(&addr, 0, 10).expect("address");
    assert_eq!(rows.len(), 3);
    // newest block first
    assert_eq!(rows[0].1.block_height, 3);
    assert_eq!(rows[1].1.block_height, 2);
    assert_eq!(rows[2].1.block_height, 1);
    assert_eq!(rows[0].1.delta_sats, fifty);
    let balance = db.address_balance(&addr).expect("balance");
    assert_eq!(balance.groups.len(), 1);
    assert_eq!(balance.groups[0].token_id, None);
    assert_eq!(balance.groups[0].sats_amount, 3 * fifty);
    assert_eq!(balance.groups[0].token_amount, 0);
    assert_eq!(balance.groups[0].utxos.len(), 3);
}

#[test]
fn address_pagination() {
    let mut db = IndexDb::open_empty();
    for h in 1..=3i32 {
        let tx = coinbase_tx(h, hash_of(10 + h as u8), 7, 100);
        commit_block(&mut db, block_of(h, hash_of(h as u8), vec![tx]));
    }
    let addr = addr_of(7);
    let rows = db.address(&addr, 1, 1).expect("address");
    assert_eq!(rows.len(), 1);
    assert_eq!(rows[0].1.block_height, 2);
}

#[test]
fn block_range_stops_at_gap() {
    let mut db = IndexDb::open_empty();
    commit_block(&mut db, block_of(1, hash_of(1), vec![coinbase_tx(1, hash_of(11), 7, 100)]));
    commit_block(&mut db, block_of(2, hash_of(2), vec![coinbase_tx(2, hash_of(12), 7, 100)]));
    commit_block(&mut db, block_of(4, hash_of(4), vec![coinbase_tx(4, hash_of(14), 7, 100)]));
    let range = db.block_range(1, 10).expect("range");
    assert_eq!(range.len(), 2);
    assert_eq!(range[0].0, hash_of(1));
    assert_eq!(range[0].1.height, 1);
    assert_eq!(range[1].0, hash_of(2));
}

#[test]
fn block_meta_contents() {
    let mut db = IndexDb::open_empty();
    commit_block(&mut db, block_of(1, hash_of(1), vec![coinbase_tx(1, hash_of(11), 7, 100)]));
    let meta = db.block_meta(&hash_of(1)).expect("meta").expect("present");
    assert_eq!(meta.height, 1);
    assert_eq!(meta.num_txs, 1);
    assert_eq!(meta.coinbase_data, vec![1, 2, 3]);
    assert_eq!(meta.total_sats_output, 100);
}

#[test]
fn spend_edge() {
    let mut db = IndexDb::open_empty();
    let t1 = hash_of(0xa1);
    let t2 = hash_of(0xa2);
    let fifty: i64 = 50 * 100_000_000;
    commit_block(&mut db, block_of(1, hash_of(1), vec![coinbase_tx(1, t1, 7, fifty)]));
    let spender = Transaction {
        hash: t2,
        inputs: vec![TxInput {
            outpoint: Some(Outpoint { hash: t1, index: 0 }),
            signature_script: Vec::new(),
            value: fifty,
            previous_script: p2pkh_script(7),
            slp_token: None,
        }],
        outputs: vec![TxOutput { value: fifty, pubkey_script: p2pkh_script(9), slp_token: None }],
        size: 250,
        timestamp: 1_600_000_002,
        block_height: 2,
        slp_transaction_info: None,
    };
    commit_block(&mut db, block_of(2, hash_of(2), vec![coinbase_tx(2, hash_of(12), 5, 0), spender]));
    let key = explorer_index::keys::UtxoKey { tx_hash: t1, out_idx: 0 };
    assert_eq!(db.utxo(&key), Ok(None));
    let spends = db.tx_out_spends(&t1).expect("spends");
    let row = spends.iter().find(|(i, _)| *i == 0).expect("row for output 0");
    let spend = row.1.as_ref().expect("spent");
    assert_eq!(spend.by_tx_hash, t2);
    assert_eq!(spend.by_tx_input_idx, 0);
    // address rows for A at both heights, with the spend counted negative
    let addr = addr_of(7);
    assert_eq!(db.address_num_txs(&addr), 2);
    let rows = db.address(&addr, 0, 10).expect("address");
    assert_eq!(rows.len(), 2);
    assert_eq!(rows[0].1.block_height, 2);
    assert_eq!(rows[0].1.delta_sats, -fifty);
    assert_eq!(rows[1].1.block_height, 1);
    assert_eq!(rows[1].1.delta_sats, fifty);
}

fn slp_info(action: SlpTxAction, validity: SlpValidity, token_id: [u8; 32], meta: Option<TxMetadata>)
    -> SlpTransactionInfo {
    SlpTransactionInfo {
        slp_action: action,
        validity_judgement: validity,
        token_id: token_id.to_vec(),
        tx_metadata: meta,
    }
}

#[test]
fn slp_genesis_then_send() {
    let mut db = IndexDb::open_empty();
    let token_x = hash_of(0xee);
    let t_g = hash_of(0xb1);
    let t_s = hash_of(0xb2);
    let dust: i64 = 546;
    let genesis_meta = TxMetadata::V1Genesis(GenesisInfo {
        ticker: b"TKX".to_vec(),
        name: b"Token X".to_vec(),
        document_url: Vec::new(),
        document_hash: Vec::new(),
        decimals: 2,
        group_token_id: Vec::new(),
    });
    let genesis = Transaction {
        hash: t_g,
        inputs: vec![TxInput {
            outpoint: Some(Outpoint { hash: hash_of(0xcc), index: 0 }),
            signature_script: Vec::new(),
            value: 1000,
            previous_script: p2pkh_script(7),
            slp_token: None,
        }],
        outputs: vec![TxOutput {
            value: dust,
            pubkey_script: p2pkh_script(7),
            slp_token: Some(SlpToken { amount: 1000, is_mint_baton: false }),
        }],
        size: 300,
        timestamp: 1_600_000_001,
        block_height: 1,
        slp_transaction_info: Some(slp_info(
            SlpTxAction::SlpV1Genesis,
            SlpValidity::Valid,
            token_x,
            Some(genesis_meta),
        )),
    };
    commit_block(&mut db, block_of(1, hash_of(1), vec![coinbase_tx(1, hash_of(11), 3, 0), genesis]));
    let token = db.token_meta(&token_x).expect("token").expect("present");
    assert_eq!(token.token_type, 0x01);
    assert_eq!(token.decimals, 2);
    assert_eq!(token.token_ticker, b"TKX".to_vec());
    // send 400 to B, 600 change to A
    let send = Transaction {
        hash: t_s,
        inputs: vec![TxInput {
            outpoint: Some(Outpoint { hash: t_g, index: 0 }),
            signature_script: Vec::new(),
            value: dust,
            previous_script: p2pkh_script(7),
            slp_token: Some(SlpToken { amount: 1000, is_mint_baton: false }),
        }],
        outputs: vec![
            TxOutput {
                value: dust,
                pubkey_script: p2pkh_script(9),
                slp_token: Some(SlpToken { amount: 400, is_mint_baton: false }),
            },
            TxOutput {
                value: dust,
                pubkey_script: p2pkh_script(7),
                slp_token: Some(SlpToken { amount: 600, is_mint_baton: false }),
            },
        ],
        size: 350,
        timestamp: 1_600_000_002,
        block_height: 2,
        slp_transaction_info: Some(slp_info(
            SlpTxAction::SlpV1Send,
            SlpValidity::Valid,
            token_x,
            None,
        )),
    };
    commit_block(&mut db, block_of(2, hash_of(2), vec![coinbase_tx(2, hash_of(12), 3, 0), send]));
    let meta = db.tx_meta(&t_s).expect("meta").expect("present");
    match meta.variant {
        TxMetaVariant::Slp { action, token_input, token_output, token_id } => {
            assert_eq!(action, SlpAction::SlpV1Send);
            assert_eq!(token_input, 1000);
            assert_eq!(token_output, 1000);
            assert_eq!(token_id, token_x);
        },
        other => panic!("unexpected variant: {:?}", other),
    }
    let bal_a = db.address_balance(&addr_of(7)).expect("balance");
    let group_a = bal_a
        .groups
        .iter()
        .find(|g| g.token_id == Some(token_x))
        .expect("token bucket for A");
    assert_eq!(group_a.token_amount, 600);
    assert_eq!(group_a.sats_amount, dust);
    let bal_b = db.address_balance(&addr_of(9)).expect("balance");
    let group_b = bal_b
        .groups
        .iter()
        .find(|g| g.token_id == Some(token_x))
        .expect("token bucket for B");
    assert_eq!(group_b.token_amount, 400);
    assert_eq!(group_b.sats_amount, dust);
}

#[test]
fn invalid_slp_burn() {
    let mut db = IndexDb::open_empty();
    let token_x = hash_of(0xee);
    let t_b = hash_of(0xb7);
    let burner = Transaction {
        hash: t_b,
        inputs: vec![TxInput {
            outpoint: Some(Outpoint { hash: hash_of(0xcd), index: 1 }),
            signature_script: Vec::new(),
            value: 1000,
            previous_script: p2pkh_script(7),
            slp_token: Some(SlpToken { amount: 700, is_mint_baton: false }),
        }],
        outputs: vec![TxOutput { value: 900, pubkey_script: p2pkh_script(7), slp_token: None }],
        size: 250,
        timestamp: 1_600_000_001,
        block_height: 1,
        slp_transaction_info: Some(slp_info(
            SlpTxAction::SlpV1Send,
            SlpValidity::UnknownOrInvalid,
            token_x,
            None,
        )),
    };
    commit_block(&mut db, block_of(1, hash_of(1), vec![coinbase_tx(1, hash_of(11), 3, 0), burner]));
    let meta = db.tx_meta(&t_b).expect("meta").expect("present");
    match meta.variant {
        TxMetaVariant::InvalidSlp { token_id, token_input } => {
            assert_eq!(token_id, token_x.to_vec());
            assert_eq!(token_input, 700);
        },
        other => panic!("unexpected variant: {:?}", other),
    }
    // no token record was written
    assert_eq!(db.token_meta(&token_x).expect("token"), None);
}

#[test]
fn coinbase_only_block_indexes_address() {
    let mut db = IndexDb::open_empty();
    commit_block(&mut db, block_of(1, hash_of(1), vec![coinbase_tx(1, hash_of(11), 7, 100)]));
    assert_eq!(db.address_num_txs(&addr_of(7)), 1);
    let rows = db.address(&addr_of(7), 0, 10).expect("address");
    assert_eq!(rows.len(), 1);
    assert!(rows[0].2.is_coinbase);
}

#[test]
fn mempool_visibility_and_resync() {
    let mut db = IndexDb::open_empty();
    let t_c = hash_of(0xa1);
    let fifty: i64 = 50 * 100_000_000;
    commit_block(&mut db, block_of(1, hash_of(1), vec![coinbase_tx(1, t_c, 7, fifty)]));
    let key = explorer_index::keys::UtxoKey { tx_hash: t_c, out_idx: 0 };
    assert!(db.utxo(&key).expect("utxo").is_some());
    // a mempool tx spends (t_c, 0)
    let t_m = hash_of(0xa9);
    let mempool_tx = Transaction {
        hash: t_m,
        inputs: vec![TxInput {
            outpoint: Some(Outpoint { hash: t_c, index: 0 }),
            signature_script: Vec::new(),
            value: fifty,
            previous_script: p2pkh_script(7),
            slp_token: None,
        }],
        outputs: vec![TxOutput { value: fifty, pubkey_script: p2pkh_script(9), slp_token: None }],
        size: 250,
        timestamp: 1_600_000_099,
        block_height: -1,
        slp_transaction_info: None,
    };
    update_mempool(&mut db, &vec![mempool_tx]).expect("resync");
    assert_eq!(db.utxo(&key), Ok(None));
    let rows = db.address(&addr_of(7), 0, 10).expect("address");
    assert_eq!(rows.len(), 2);
    assert_eq!(rows[0].0, t_m);
    assert_eq!(rows[1].1.block_height, 1);
    // clearing the mempool restores the confirmed view
    db.clear_mempool();
    assert!(db.utxo(&key).expect("utxo").is_some());
    let rows = db.address(&addr_of(7), 0, 10).expect("address");
    assert_eq!(rows.len(), 1);
}

#[test]
fn empty_resync_writes_nothing() {
    let mut db = IndexDb::open_empty();
    commit_block(&mut db, block_of(1, hash_of(1), vec![coinbase_tx(1, hash_of(11), 7, 100)]));
    update_mempool(&mut db, &Vec::new()).expect("resync");
    assert_eq!(db.address_num_txs(&addr_of(7)), 1);
    assert!(db.utxo(&explorer_index::keys::UtxoKey { tx_hash: hash_of(11), out_idx: 0 })
        .expect("utxo")
        .is_some());
}

#[test]
fn pipeline_commits_in_height_order() {
    let mut p = Pipeline::new(0);
    let bb = |h: i32| explorer_index::db::BlockBatches { block_height: h, batch: Vec::new() };
    let ready = p.on_batch(bb(2));
    assert!(ready.is_empty());
    let ready = p.on_batch(bb(3));
    assert!(ready.is_empty());
    let ready = p.on_batch(bb(1));
    let heights: Vec<i32> = ready.iter().map(|b| b.block_height).collect();
    assert_eq!(heights, vec![1, 2, 3]);
    assert_eq!(p.committed_height, 3);
}

#[test]
fn backpressure_rule() {
    assert!(!explorer_index::pipeline::should_wait(100, 100, 1000));
    assert!(!explorer_index::pipeline::should_wait(1100, 100, 1000));
    assert!(explorer_index::pipeline::should_wait(1101, 100, 1000));
}

#[test]
fn is_coinbase_detects_null_outpoint() {
    assert!(is_coinbase(&Outpoint { hash: [0u8; 32], index: 0xffff_ffff }));
    assert!(!is_coinbase(&Outpoint { hash: [0u8; 32], index: 0 }));
    let mut h = [0u8; 32];
    h[31] = 1;
    assert!(!is_coinbase(&Outpoint { hash: h, index: 0xffff_ffff }));
}

#[test]
fn search_disambiguates() {
    let mut db = IndexDb::open_empty();
    let tx_hash = hash_of(0xa1);
    commit_block(&mut db, block_of(700000, hash_of(1), vec![coinbase_tx(700000, tx_hash, 7, 100)]));
    commit_block(&mut db, block_of(9, hash_of(2), vec![coinbase_tx(9, hash_of(19), 7, 100)]));
    // tx by little-endian hex
    let le_hex = explorer_index::hexstr::to_le_hex(&tx_hash);
    let hit = db.search(&le_hex, None).expect("search").expect("hit");
    assert_eq!(hit, format!("/tx/{}", le_hex));
    // block height, even- and odd-length decimal queries alike
    let hit = db.search("700000", None).expect("search").expect("hit");
    assert_eq!(hit, "/block-height/700000");
    let hit = db.search("9", None).expect("search").expect("hit");
    assert_eq!(hit, "/block-height/9");
    assert_eq!(db.search("699999", None), Ok(None));
    // address wins outright when the caller parsed one
    let canonical = String::from("qp0000000000000000000000000000000000000000");
    let hit = db.search("anything", Some(&canonical)).expect("search").expect("hit");
    assert_eq!(hit, format!("/address/{}", canonical));
    // a block hash in little-endian hex resolves to the block page
    let blk_hex = explorer_index::hexstr::to_le_hex(&hash_of(1));
    let hit = db.search(&blk_hex, None).expect("search").expect("hit");
    assert_eq!(hit, format!("/block/{}", blk_hex));
    // a query that is neither hex nor a number matches nothing
    assert_eq!(db.search("zzz", None), Ok(None));
}

#[test]
fn mock_generators_feed_the_builder() {
    let block_hash = vec![5u8; 32];
    let tx = explorer_index::mocker::generate_transaction(9, &block_hash);
    assert_eq!(tx.block_height, 9);
    let td = explorer_index::mocker::generate_transaction_data(tx);
    let block = explorer_index::mocker::generate_block(9, &block_hash, vec![td]);
    let bb = make_block_batches(block).expect("mock block builds");
    assert_eq!(bb.block_height, 9);
}

#[test]
fn pipeline_keeps_unready_batches() {
    let mut p = Pipeline::new(5);
    let bb = |h: i32| explorer_index::db::BlockBatches { block_height: h, batch: Vec::new() };
    // a batch far ahead stays shelved
    let ready = p.on_batch(bb(9));
    assert!(ready.is_empty());
    assert_eq!(p.shelf_len(), 1);
    // the next height commits at once; the far one stays, nothing is lost
    let ready = p.on_batch(bb(6));
    let heights: Vec<i32> = ready.iter().map(|b| b.block_height).collect();
    assert_eq!(heights, vec![6]);
    assert_eq!(p.shelf_len(), 1);
    assert_eq!(p.committed_height, 6);
}

#[test]
fn tip_signal_classifier() {
    assert!(explorer_index::pipeline::is_tip_signal("block not found"));
    assert!(!explorer_index::pipeline::is_tip_signal("block not found "));
    assert!(!explorer_index::pipeline::is_tip_signal("connection reset"));
    assert!(!explorer_index::pipeline::is_tip_signal(""));
}

#[test]
fn mock_generator_values() {
    let block_hash = vec![5u8; 32];
    let tx = explorer_index::mocker::generate_transaction(9, &block_hash);
    assert_eq!(tx.size, 123456);
    assert_eq!(tx.timestamp, 1636076932);
    assert_eq!(tx.inputs.len(), 2);
    assert_eq!(tx.inputs[0].value, 123456);
    assert!(tx.inputs[0].slp_token.is_none());
    assert_eq!(tx.inputs[1].slp_token.as_ref().map(|t| t.amount), Some(12));
    assert_eq!(tx.outputs[0].value, 123456);
    let info = tx.slp_transaction_info.as_ref().expect("slp info");
    assert_eq!(info.slp_action, SlpTxAction::SlpV1Genesis);
    assert_eq!(info.validity_judgement, SlpValidity::Valid);
    assert_eq!(info.token_id.len(), 32);
    let pool: [(&str, &str); 8] = [
        ("HONK HONK", "HONK"),
        ("MIST", "MIST"),
        ("Mint", "MINT"),
        ("Spice", "SPICE"),
        ("MAZE", "MAZE"),
        ("HonestCoin", "USDH"),
        ("Tether USDt", "USDt"),
        ("flexUSD", "flexUSD"),
    ];
    match info.tx_metadata.as_ref().expect("metadata") {
        TxMetadata::V1Genesis(g) => {
            assert_eq!(g.decimals, 2);
            assert!(pool.iter().any(|(name, ticker)| {
                g.name == name.as_bytes().to_vec() && g.ticker == ticker.as_bytes().to_vec()
            }));
        },
        other => panic!("unexpected metadata: {:?}", other),
    }
    let block = explorer_index::mocker::generate_block(
        9,
        &block_hash,
        vec![explorer_index::mocker::generate_transaction_data(tx)],
    );
    let info = block.info.expect("info");
    assert_eq!(info.difficulty_bits, 1.0f64.to_bits());
    assert_eq!(info.timestamp, 1636076932);
}
