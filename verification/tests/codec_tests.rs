use explorer_index::bytesord::{cmp_bytes, ByteOrd};
use explorer_index::hexstr::{from_le_hex, to_le_hex, parse_u32, u32_to_dec};
use explorer_index::keys::{encode_height_key, AddrKeyPrefix, AddrTxKey, AddrUtxoKey, TxOutSpend,
    UtxoKey, inc_bytes};
use explorer_index::records::{AddressTx, BlockMeta, SlpAction, TokenMeta, TxMeta, TxMetaVariant,
    Utxo};
use explorer_index::script::{destination_from_script, Destination};
use explorer_index::chain::{SlpTransactionInfo, SlpTxAction, SlpValidity, Transaction, TxInput,
    TxOutput, Outpoint, SlpToken};
use explorer_index::slp::tx_meta_variant;

#[test]
fn height_keys_sort_numerically() {
    let a = encode_height_key(1);
    let b = encode_height_key(255);
    let c = encode_height_key(256);
    let d = encode_height_key(0x01000000);
    assert_eq!(cmp_bytes(&a, &b), ByteOrd::Less);
    assert_eq!(cmp_bytes(&b, &c), ByteOrd::Less);
    assert_eq!(cmp_bytes(&c, &d), ByteOrd::Less);
    assert_eq!(cmp_bytes(&d, &d), ByteOrd::Equal);
    assert_eq!(cmp_bytes(&c, &a), ByteOrd::Greater);
}

#[test]
fn addr_tx_keys_sort_by_height_within_prefix() {
    let k1 = AddrTxKey { addr_type: 0, addr_hash: [7; 20], block_height: 5, tx_hash: [0xff; 32] };
    let k2 = AddrTxKey { addr_type: 0, addr_hash: [7; 20], block_height: 6, tx_hash: [0x00; 32] };
    assert_eq!(cmp_bytes(&k1.encode(), &k2.encode()), ByteOrd::Less);
}

#[test]
fn utxo_key_round_trip() {
    let k = UtxoKey { tx_hash: [9; 32], out_idx: 0xdeadbeef };
    let enc = k.encode();
    assert_eq!(enc.len(), 36);
    let back = UtxoKey::decode(&enc).expect("decodes");
    assert_eq!(back, k);
    assert_eq!(UtxoKey::decode(&enc[..35]), None);
}

#[test]
fn addr_keys_round_trip() {
    let p = AddrKeyPrefix { addr_type: 1, addr_hash: [3; 20] };
    assert_eq!(AddrKeyPrefix::decode(&p.encode()), Some(p));
    let k = AddrTxKey { addr_type: 1, addr_hash: [3; 20], block_height: 77, tx_hash: [4; 32] };
    assert_eq!(AddrTxKey::decode(&k.encode()), Some(k));
    let u = AddrUtxoKey { addr: p, utxo_key: UtxoKey { tx_hash: [4; 32], out_idx: 2 } };
    assert_eq!(AddrUtxoKey::decode(&u.encode()), Some(u));
    let s = TxOutSpend { by_tx_hash: [8; 32], by_tx_input_idx: 1 };
    assert_eq!(TxOutSpend::decode(&s.encode()), Some(s));
}

#[test]
fn le_hex_round_trips() {
    let mut b = [0u8; 32];
    for i in 0..32 {
        b[i] = (i as u8).wrapping_mul(7);
    }
    let s = to_le_hex(&b);
    assert_eq!(s.len(), 64);
    let back = from_le_hex(&s).expect("hex parses");
    assert_eq!(back, b.to_vec());
    // the display form agrees with plain hex of the reversed bytes
    let mut rev = b.to_vec();
    rev.reverse();
    assert_eq!(s, hex::encode(&rev));
    assert!(from_le_hex("0g").is_err());
    assert!(from_le_hex("abc").is_err());
}

#[test]
fn decimal_helpers() {
    assert_eq!(u32_to_dec(0), "0");
    assert_eq!(u32_to_dec(700000), "700000");
    assert_eq!(u32_to_dec(u32::MAX), format!("{}", u32::MAX));
    assert_eq!(parse_u32("700000"), Some(700000));
    assert_eq!(parse_u32("0"), Some(0));
    assert_eq!(parse_u32(""), None);
    assert_eq!(parse_u32("12a"), None);
    assert_eq!(parse_u32("4294967295"), Some(u32::MAX));
    assert_eq!(parse_u32("4294967296"), None);
}

#[test]
fn inc_bytes_carries() {
    let mut v = vec![0x00u8, 0xff];
    inc_bytes(&mut v);
    assert_eq!(v, vec![0x01, 0x00]);
    let mut v = vec![0xffu8, 0xff];
    inc_bytes(&mut v);
    assert_eq!(v, vec![0x00, 0x00]);
    let mut v = vec![0x07u8];
    inc_bytes(&mut v);
    assert_eq!(v, vec![0x08]);
}

#[test]
fn tx_meta_record_round_trip() {
    let meta = TxMeta {
        block_height: 42,
        timestamp: 1_600_000_000,
        is_coinbase: false,
        size: 321,
        num_inputs: 2,
        num_outputs: 3,
        sats_input: -5,
        sats_output: 7,
        variant: TxMetaVariant::Slp {
            action: SlpAction::SlpV1Send,
            token_input: 1000,
            token_output: 999,
            token_id: [0xee; 32],
        },
    };
    let enc = meta.encode();
    assert_eq!(TxMeta::decode(&enc), Some(meta.clone()));
    let burn = TxMeta {
        variant: TxMetaVariant::InvalidSlp { token_id: vec![0xee; 32], token_input: 700 },
        ..meta
    };
    let enc = burn.encode();
    assert_eq!(TxMeta::decode(&enc), Some(burn));
    assert_eq!(TxMeta::decode(&enc[..enc.len() - 1]), None);
}

#[test]
fn other_records_round_trip() {
    let a = AddressTx { timestamp: 5, block_height: -1, delta_sats: -50, delta_tokens: 3 };
    assert_eq!(AddressTx::decode(&a.encode()), Some(a));
    let u = Utxo {
        sats_amount: 546,
        token_amount: 400,
        is_coinbase: false,
        block_height: 9,
        token_id: Some([0xee; 32]),
    };
    assert_eq!(Utxo::decode(&u.encode()), Some(u));
    let t = TokenMeta {
        token_type: 0x41,
        token_ticker: b"TKX".to_vec(),
        token_name: b"Token X".to_vec(),
        token_document_url: b"https://example.invalid".to_vec(),
        token_document_hash: Vec::new(),
        decimals: 0,
        group_id: Some([1; 32]),
    };
    assert_eq!(TokenMeta::decode(&t.encode()), Some(t.clone()));
    let b = BlockMeta {
        height: 7,
        version: 1,
        previous_block: [2; 32],
        merkle_root: [3; 32],
        timestamp: 1_600_000_000,
        bits: 0x1d00ffff,
        nonce: 99,
        total_sats_input: 0,
        total_sats_output: 100,
        difficulty_bits: 4_619_567_317_775_286_272,
        median_time: 1_599_999_000,
        size: 285,
        num_txs: 1,
        coinbase_data: vec![1, 2, 3],
    };
    assert_eq!(BlockMeta::decode(&b.encode()), Some(b));
}

#[test]
fn block_header_wire_bytes() {
    let h = explorer_index::records::BlockHeader {
        version: 1,
        previous_block: [2; 32],
        merkle_root: [3; 32],
        timestamp: 0x01020304,
        bits: 0x1d00ffff,
        nonce: 7,
    };
    let w = h.to_wire_bytes();
    assert_eq!(w.len(), 80);
    assert_eq!(&w[0..4], &[1, 0, 0, 0]);
    assert_eq!(&w[4..36], &[2u8; 32]);
    assert_eq!(&w[36..68], &[3u8; 32]);
    assert_eq!(&w[68..72], &[0x04, 0x03, 0x02, 0x01]);
}

#[test]
fn script_classification() {
    let mut p2pkh = vec![0x76u8, 0xa9, 20];
    p2pkh.extend_from_slice(&[7; 20]);
    p2pkh.extend_from_slice(&[0x88, 0xac]);
    match destination_from_script(&p2pkh) {
        Destination::Address(a) => {
            assert_eq!(a.addr_type, 0);
            assert_eq!(a.addr_hash, [7; 20]);
        },
        other => panic!("unexpected: {:?}", other),
    }
    let mut p2sh = vec![0xa9u8, 20];
    p2sh.extend_from_slice(&[8; 20]);
    p2sh.push(0x87);
    match destination_from_script(&p2sh) {
        Destination::Address(a) => {
            assert_eq!(a.addr_type, 1);
            assert_eq!(a.addr_hash, [8; 20]);
        },
        other => panic!("unexpected: {:?}", other),
    }
    let mut p2pk = vec![33u8];
    p2pk.extend_from_slice(&[9; 33]);
    p2pk.push(0xac);
    assert!(matches!(destination_from_script(&p2pk), Destination::P2PK(_)));
    let nulldata = vec![0x6au8, 1, 2, 3];
    match destination_from_script(&nulldata) {
        Destination::Nulldata(d) => assert_eq!(d, vec![1, 2, 3]),
        other => panic!("unexpected: {:?}", other),
    }
    assert!(matches!(destination_from_script(&[0x51]), Destination::Unknown(_)));
}

#[test]
fn slp_classification_table() {
    let base_tx = |slp: Option<SlpTransactionInfo>, in_amt: u64| Transaction {
        hash: [1; 32],
        inputs: vec![TxInput {
            outpoint: Some(Outpoint { hash: [0; 32], index: 0xffff_ffff }),
            signature_script: Vec::new(),
            value: 1,
            previous_script: Vec::new(),
            slp_token: if in_amt > 0 {
                Some(SlpToken { amount: in_amt, is_mint_baton: false })
            } else {
                None
            },
        }],
        outputs: vec![TxOutput { value: 1, pubkey_script: Vec::new(), slp_token: None }],
        size: 100,
        timestamp: 0,
        block_height: 1,
        slp_transaction_info: slp,
    };
    let info = |action: SlpTxAction, validity: SlpValidity| SlpTransactionInfo {
        slp_action: action,
        validity_judgement: validity,
        token_id: vec![0xee; 32],
        tx_metadata: None,
    };
    // no SLP info: plain coins
    assert_eq!(tx_meta_variant(&base_tx(None, 0)), TxMetaVariant::SatsOnly);
    // invalid with no token input: plain coins
    assert_eq!(
        tx_meta_variant(&base_tx(Some(info(SlpTxAction::SlpV1Send, SlpValidity::UnknownOrInvalid)), 0)),
        TxMetaVariant::SatsOnly
    );
    // invalid with token input: a burn
    match tx_meta_variant(&base_tx(
        Some(info(SlpTxAction::SlpV1Send, SlpValidity::UnknownOrInvalid)),
        700,
    )) {
        TxMetaVariant::InvalidSlp { token_id, token_input } => {
            assert_eq!(token_id, vec![0xee; 32]);
            assert_eq!(token_input, 700);
        },
        other => panic!("unexpected: {:?}", other),
    }
    // valid but no SLP action: plain coins
    assert_eq!(
        tx_meta_variant(&base_tx(Some(info(SlpTxAction::NonSlp, SlpValidity::Valid)), 5)),
        TxMetaVariant::SatsOnly
    );
    // valid burn-style actions: a burn
    match tx_meta_variant(&base_tx(Some(info(SlpTxAction::NonSlpBurn, SlpValidity::Valid)), 5)) {
        TxMetaVariant::InvalidSlp { token_input, .. } => assert_eq!(token_input, 5),
        other => panic!("unexpected: {:?}", other),
    }
    // valid supported action: a token transaction
    match tx_meta_variant(&base_tx(Some(info(SlpTxAction::SlpV1Mint, SlpValidity::Valid)), 5)) {
        TxMetaVariant::Slp { action, token_input, token_output, token_id } => {
            assert_eq!(action, SlpAction::SlpV1Mint);
            assert_eq!(token_input, 5);
            assert_eq!(token_output, 0);
            assert_eq!(token_id, [0xee; 32]);
        },
        other => panic!("unexpected: {:?}", other),
    }
}

#[test]
fn json_token_hex_ids() {
    let meta = TokenMeta {
        token_type: 1,
        token_ticker: b"T".to_vec(),
        token_name: b"T".to_vec(),
        token_document_url: Vec::new(),
        token_document_hash: Vec::new(),
        decimals: 0,
        group_id: None,
    };
    let id = [0xabu8; 32];
    let j = explorer_index::server_primitives::JsonToken::from_token_meta(&id, meta);
    assert_eq!(j.token_id, hex::encode(&id));
    assert_eq!(j.group_id, None);
}

#[test]
fn random_digest_wrapper_varies() {
    let a = explorer_index::mocker::generate_random_sha256();
    let b = explorer_index::mocker::generate_random_sha256();
    assert_eq!(a.len(), 32);
    // two draws agreeing would mean the wrapper ignores its randomness
    assert_ne!(a, b);
}
