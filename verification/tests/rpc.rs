use exfer::chain::{Block, BlockHeader, ChainTip, OutPoint, Transaction};
use exfer::clock::SECOND;
use exfer::flows::{LookupReply, LookupStep, Submission, SubmitReply, SubmitStep, TransactionLookup};
use exfer::hash::Hash256;
use exfer::net::IpAddr;
use exfer::rpc::{
    address_utxos_batch_result, address_utxos_result, balance_result, balances_result, block_id_at,
    block_query, block_result, check_consumed, cut_batch, cut_page, decode_address,
    decode_batch_addresses, decode_id, decode_script, decode_submission, dispatch_call,
    encode_utxo_cursor, height_result, interpret_answer, is_serialized, mempool_result, method_of,
    next_height, parse_utxo_cursor, prepare_call, probe_len, read_answer, resolve_page_limit,
    resume_walk, screen_call, script_utxos_result, spent_by_result, submission_result,
    transaction_not_found, transaction_result, trouble, AddressBalance, AddressUtxos, BlockPlace,
    BlockQuery, CallLimiter, MempoolRow, Received, RpcMethod, RpcResponse, SpendRecord, Spent,
    Trouble, UtxoRow, INTERNAL_ERROR, INVALID_PARAMS, METHOD_NOT_FOUND, PARSE_ERROR,
    UTXO_PAGE_LIMIT,
};
use serde_json::Value;

const NOW: u64 = 1_000_000 * SECOND;

const IP: IpAddr = IpAddr::V4([9, 9, 9, 9]);

fn json(text: &str) -> Value {
    serde_json::from_str(text).expect("valid JSON")
}

fn tip() -> ChainTip {
    ChainTip { block_id: Hash256([0x11; 32]), height: 77, cumulative_work: [0u8; 32] }
}

#[test]
fn utxo_cursor_round_trips_with_tip_id() {
    let tip = Hash256([7u8; 32]);
    let op = OutPoint::new(Hash256([9u8; 32]), 3);
    let encoded = encode_utxo_cursor(&tip, &op);
    let (got_tip, got_op) = parse_utxo_cursor(&encoded).expect("round-trip");
    assert_eq!(got_tip, tip);
    assert_eq!(got_op, op);
}

#[test]
fn utxo_cursor_rejects_legacy_two_part_and_malformed() {
    let two_part = format!("{}:0", hex::encode([9u8; 32]));
    assert!(parse_utxo_cursor(&two_part).is_err());
    assert!(parse_utxo_cursor("garbage").is_err());
    let bad_tip = format!("ab:{}:0", hex::encode([9u8; 32]));
    assert!(parse_utxo_cursor(&bad_tip).is_err());
    let bad_idx = format!("{}:{}:notnum", hex::encode([7u8; 32]), hex::encode([9u8; 32]));
    assert!(parse_utxo_cursor(&bad_idx).is_err());
}

#[test]
fn cursor_messages_are_exact() {
    let shape = "cursor must be '<tip_id_hex>:<tx_id_hex>:<output_index>'";
    assert_eq!(parse_utxo_cursor("garbage").unwrap_err(), shape);
    assert_eq!(parse_utxo_cursor("a:b").unwrap_err(), shape);
    let id = hex::encode([9u8; 32]);
    assert_eq!(
        parse_utxo_cursor(&format!("ab:{}:0", id)).unwrap_err(),
        "cursor tip_id must be 32 bytes, got 1"
    );
    assert_eq!(
        parse_utxo_cursor(&format!("{}:xy:0", id)).unwrap_err(),
        "invalid cursor tx_id hex: Invalid character 'x' at position 0"
    );
    assert_eq!(
        parse_utxo_cursor(&format!("{}:{}:notnum", id, id)).unwrap_err(),
        "invalid cursor output_index: invalid digit found in string"
    );
    assert_eq!(
        parse_utxo_cursor(&format!("{}:{}:", id, id)).unwrap_err(),
        "invalid cursor output_index: cannot parse integer from empty string"
    );
    assert_eq!(
        parse_utxo_cursor(&format!("{}:{}:4294967296", id, id)).unwrap_err(),
        "invalid cursor output_index: number too large to fit in target type"
    );
    assert_eq!(
        parse_utxo_cursor(&format!("{}:{}:4294967295", id, id)).unwrap().1.output_index,
        u32::MAX
    );
    assert_eq!(
        parse_utxo_cursor(&format!("{}:{}:1:2", id, id)).unwrap_err(),
        "invalid cursor output_index: invalid digit found in string"
    );
}

#[test]
fn methods_have_their_names() {
    let names = [
        ("get_block_height", RpcMethod::GetBlockHeight),
        ("get_balance", RpcMethod::GetBalance),
        ("get_address_utxos", RpcMethod::GetAddressUtxos),
        ("get_script_utxos", RpcMethod::GetScriptUtxos),
        ("get_balances", RpcMethod::GetBalances),
        ("get_address_utxos_batch", RpcMethod::GetAddressUtxosBatch),
        ("get_address_mempool", RpcMethod::GetAddressMempool),
        ("get_block", RpcMethod::GetBlock),
        ("get_transaction", RpcMethod::GetTransaction),
        ("get_output_spent_by", RpcMethod::GetOutputSpentBy),
        ("send_raw_transaction", RpcMethod::SendRawTransaction),
    ];
    for (name, m) in names {
        assert_eq!(method_of(name), Some(m));
    }
    assert_eq!(method_of("get_blocks"), None);
    assert_eq!(method_of(""), None);
    assert!(is_serialized(RpcMethod::GetBalance));
    assert!(!is_serialized(RpcMethod::GetAddressMempool));
    assert!(!is_serialized(RpcMethod::SendRawTransaction));
}

#[test]
fn calls_are_screened() {
    assert!(screen_call("get_block", 65_536, "2.0").is_none());
    let e = screen_call("get_block", 65_537, "2.0").unwrap();
    assert_eq!(e.code, PARSE_ERROR);
    assert_eq!(e.message, "Request too large: 65537 bytes (max 65536 for this method)");
    assert!(screen_call("get_script_utxos", 200_000, "2.0").is_none());
    assert!(screen_call("get_script_utxos", 200_001, "2.0").is_some());
    assert!(screen_call("send_raw_transaction", 2_621_440, "2.0").is_none());
    let e = screen_call("get_block", 10, "1.0").unwrap();
    assert_eq!((e.code, e.message.as_str()), (PARSE_ERROR, "Invalid JSON-RPC version"));
}

#[test]
fn searches_are_limited() {
    let mut scans = CallLimiter::new();
    let mut txs = CallLimiter::new();
    for i in 0..30 {
        let name = if i % 2 == 0 { "get_balance" } else { "get_address_mempool" };
        assert!(dispatch_call(name, &mut scans, &mut txs, IP, NOW).is_ok());
    }
    let e = dispatch_call("get_balance", &mut scans, &mut txs, IP, NOW).unwrap_err();
    assert_eq!(e.code, INTERNAL_ERROR);
    assert_eq!(e.message, "Rate limit exceeded: max 30 balance/utxo queries per minute");
    // Others, and other calls, are not affected.
    let other = IpAddr::V4([9, 9, 9, 10]);
    assert!(dispatch_call("get_balance", &mut scans, &mut txs, other, NOW).is_ok());
    assert!(dispatch_call("get_block", &mut scans, &mut txs, IP, NOW).is_ok());
    // A minute later the count starts anew.
    assert!(dispatch_call("get_balance", &mut scans, &mut txs, IP, NOW + 59 * SECOND).is_err());
    assert!(dispatch_call("get_balance", &mut scans, &mut txs, IP, NOW + 60 * SECOND).is_ok());
}

#[test]
fn submissions_are_limited() {
    let mut scans = CallLimiter::new();
    let mut txs = CallLimiter::new();
    for _ in 0..60 {
        assert!(dispatch_call("send_raw_transaction", &mut scans, &mut txs, IP, NOW).is_ok());
    }
    let e = dispatch_call("send_raw_transaction", &mut scans, &mut txs, IP, NOW).unwrap_err();
    assert_eq!(e.message, "Rate limit exceeded: max 60 tx submissions per minute");
    let e = dispatch_call("nothing", &mut scans, &mut txs, IP, NOW).unwrap_err();
    assert_eq!((e.code, e.message.as_str()), (METHOD_NOT_FOUND, "Method not found"));
}

#[test]
fn addresses_are_read() {
    assert_eq!(decode_address(&"ab".repeat(32)).unwrap(), vec![0xab; 32]);
    assert_eq!(decode_address(&"AB".repeat(32)).unwrap(), vec![0xab; 32]);
    let e = decode_address("abc").unwrap_err();
    assert_eq!((e.code, e.message.as_str()), (INVALID_PARAMS, "Invalid hex: Odd number of digits"));
    let e = decode_address("abcd").unwrap_err();
    assert_eq!(e.message, "Address must be 32 bytes (64 hex chars), got 2");
    let e = decode_address("\u{e9}").unwrap_err();
    assert!(e.message.starts_with("Invalid hex: Invalid character "), "{}", e.message);
}

#[test]
fn scripts_are_read() {
    assert_eq!(decode_script("").unwrap(), Vec::<u8>::new());
    assert_eq!(decode_script(&"00".repeat(65_535)).unwrap().len(), 65_535);
    let e = decode_script(&"00".repeat(65_536)).unwrap_err();
    assert_eq!(
        e.message,
        "script_hex exceeds max output-script size (got 65536 bytes, max 65535)"
    );
    let e = decode_script("0g").unwrap_err();
    assert_eq!(e.message, "Invalid hex in script_hex: Invalid character 'g' at position 1");
}

#[test]
fn ids_are_read() {
    assert_eq!(
        decode_id(&"0f".repeat(32), "Hash must be 32 bytes").unwrap(),
        Hash256([0x0f; 32])
    );
    let e = decode_id("0f", "tx_id must be 32 bytes").unwrap_err();
    assert_eq!((e.code, e.message.as_str()), (INVALID_PARAMS, "tx_id must be 32 bytes"));
    let e = decode_id("zz", "x").unwrap_err();
    assert_eq!(e.message, "Invalid hex: Invalid character 'z' at position 0");
}

#[test]
fn page_limits_are_clamped() {
    assert_eq!(resolve_page_limit(None), 1000);
    assert_eq!(resolve_page_limit(Some(0)), 1);
    assert_eq!(resolve_page_limit(Some(1)), 1);
    assert_eq!(resolve_page_limit(Some(500)), 500);
    assert_eq!(resolve_page_limit(Some(1001)), 1000);
    assert_eq!(probe_len(7), 8);
    assert_eq!(next_height(7), 8);
    assert_eq!(next_height(u64::MAX), u64::MAX);
}

fn rows(n: u32) -> Vec<UtxoRow> {
    (0..n)
        .map(|i| UtxoRow {
            outpoint: OutPoint::new(Hash256([3; 32]), i),
            value: 10 + i as u64,
            height: 5,
            is_coinbase: i == 0,
        })
        .collect()
}

#[test]
fn pages_cover_everything() {
    let all = rows(25);
    for page in [1usize, 4, 5, 24, 25, 26] {
        let mut cursor: Option<String> = None;
        let mut seen: Vec<u32> = Vec::new();
        loop {
            let after = resume_walk(cursor.as_deref(), &tip().block_id).unwrap();
            let from = match after {
                None => 0,
                Some(op) => op.output_index as usize + 1,
            };
            let to = std::cmp::min(all.len(), from + probe_len(page));
            let p = cut_page(&all[from..to].to_vec(), page, &tip());
            assert_eq!(p.truncated, p.next_cursor.is_some());
            assert_eq!(p.tip_height, 77);
            seen.extend(p.matched.iter().map(|r| r.outpoint.output_index));
            cursor = p.next_cursor;
            if cursor.is_none() {
                break;
            }
        }
        assert_eq!(seen, (0..25).collect::<Vec<u32>>());
    }
}

#[test]
fn walks_end_with_the_tip() {
    let c = encode_utxo_cursor(&Hash256([0x12; 32]), &OutPoint::new(Hash256([3; 32]), 1));
    let e = resume_walk(Some(&c), &tip().block_id).unwrap_err();
    assert_eq!(e.message, "pagination snapshot expired, restart from cursor=None");
    let e = resume_walk(Some("x"), &tip().block_id).unwrap_err();
    assert_eq!(
        e.message,
        "Invalid cursor: cursor must be '<tip_id_hex>:<tx_id_hex>:<output_index>'"
    );
    assert!(resume_walk(None, &tip().block_id).unwrap().is_none());
}

#[test]
fn batches_are_cut() {
    let (part, more) = cut_batch(&rows(1000));
    assert_eq!((part.len(), more), (UTXO_PAGE_LIMIT, false));
    let (part, more) = cut_batch(&rows(1001));
    assert_eq!((part.len(), more), (UTXO_PAGE_LIMIT, true));
}

#[test]
fn address_lists_are_read() {
    let a = "aa".repeat(32);
    let b = "bb".repeat(32);
    let got = decode_batch_addresses(&vec![a.clone(), b.clone()]).unwrap_or_else(|_| panic!());
    assert_eq!(got.len(), 2);
    assert_eq!(got[0].address, a);
    assert_eq!(got[0].script, vec![0xaa; 32]);
    assert_eq!(got[1].script, vec![0xbb; 32]);
    let err = |v: Vec<String>| match decode_batch_addresses(&v) {
        Ok(_) => panic!("expected an error"),
        Err(e) => e.message,
    };
    assert_eq!(err(vec![]), "addresses must not be empty");
    assert_eq!(err(vec![a.clone(); 101]), "too many addresses (got 101, max 100)");
    assert_eq!(
        err(vec![a.clone(), "zz".to_string()]),
        "Invalid hex in 'zz': Invalid character 'z' at position 0"
    );
    assert_eq!(
        err(vec!["abcd".to_string(), "zz".to_string()]),
        "Address 'abcd' must be 32 bytes (64 hex chars), got 2"
    );
}

#[test]
fn results_are_laid_out() {
    let h11 = "11".repeat(32);
    assert_eq!(
        height_result(&tip()),
        json(&format!("{{\"height\":77,\"block_id\":\"{}\"}}", h11))
    );
    assert_eq!(balance_result(u64::MAX, "ab"), json("{\"balance\":18446744073709551615,\"address\":\"ab\"}"));
    let h03 = "03".repeat(32);
    let page = cut_page(&rows(2), 1, &tip());
    assert_eq!(
        address_utxos_result("ab", &page),
        json(&format!(
            "{{\"address\":\"ab\",\"utxos\":[{{\"tx_id\":\"{h03}\",\"output_index\":0,\"value\":10,\"height\":5,\"is_coinbase\":true}}],\"truncated\":true,\"next_cursor\":\"{h11}:{h03}:0\",\"tip_height\":77}}"
        ))
    );
    let page = cut_page(&rows(1), 1, &tip());
    assert_eq!(
        script_utxos_result("ab", 1, &page),
        json(&format!(
            "{{\"script_hex\":\"ab\",\"utxos\":[{{\"tx_id\":\"{h03}\",\"output_index\":0,\"value\":10,\"script_len\":1,\"height\":5,\"is_coinbase\":true}}],\"truncated\":false,\"next_cursor\":null,\"tip_height\":77}}"
        ))
    );
    assert_eq!(
        balances_result(&vec![
            AddressBalance { address: "a".to_string(), balance: 1 },
            AddressBalance { address: "b".to_string(), balance: 2 },
        ]),
        json("{\"balances\":[{\"address\":\"a\",\"balance\":1},{\"address\":\"b\",\"balance\":2}]}")
    );
    assert_eq!(
        address_utxos_batch_result(
            &vec![AddressUtxos { address: "a".to_string(), utxos: Vec::new(), truncated: false }],
            9
        ),
        json("{\"addresses\":[{\"address\":\"a\",\"utxos\":[],\"truncated\":false}],\"tip_height\":9}")
    );
    assert_eq!(
        mempool_result(
            "a",
            9,
            &vec![MempoolRow {
                tx_id: Hash256([0x11; 32]),
                received: vec![Received { output_index: 4, value: 5 }],
                spent: vec![Spent { outpoint: OutPoint::new(Hash256([3; 32]), 6), value: 7 }],
            }]
        ),
        json(&format!(
            "{{\"address\":\"a\",\"tip_height\":9,\"mempool\":[{{\"tx_id\":\"{h11}\",\"received\":[{{\"output_index\":4,\"value\":5}}],\"spent\":[{{\"tx_id\":\"{h03}\",\"output_index\":6,\"value\":7}}]}}]}}"
        ))
    );
    assert_eq!(
        submission_result(&Hash256([3; 32])),
        json(&format!("{{\"tx_id\":\"{h03}\"}}"))
    );
}

fn block() -> Block {
    let header = BlockHeader {
        version: 1,
        height: 12,
        prev_block_id: Hash256([1; 32]),
        timestamp: 34,
        difficulty_target: Hash256([2; 32]),
        nonce: 56,
        tx_root: Hash256([4; 32]),
        state_root: Hash256([5; 32]),
        id: Hash256([6; 32]),
    };
    let tx = |n: u8| Transaction {
        tx_id: Hash256([n; 32]),
        is_coinbase: n == 7,
        inputs: Vec::new(),
        outputs: Vec::new(),
    };
    Block { header, transactions: vec![tx(7), tx(8)] }
}

#[test]
fn blocks_are_shown() {
    assert!(matches!(
        block_query(Some(&"06".repeat(32)), Some(9)),
        Ok(BlockQuery::ById(id)) if id == Hash256([6; 32])
    ));
    assert!(matches!(block_query(None, Some(9)), Ok(BlockQuery::AtHeight(9))));
    assert_eq!(block_query(None, None).unwrap_err().message, "Provide either 'hash' or 'height'");
    assert_eq!(block_query(Some("06"), None).unwrap_err().message, "Hash must be 32 bytes");
    assert_eq!(block_id_at(9, Ok(Some(Hash256([6; 32])))).unwrap(), Hash256([6; 32]));
    assert_eq!(block_id_at(9, Ok(None)).unwrap_err().message, "No block at height 9");
    let e = block_id_at(9, Err("io".to_string())).unwrap_err();
    assert_eq!((e.code, e.message.as_str()), (INTERNAL_ERROR, "Storage error: io"));
    let v = block_result(&Hash256([6; 32]), Ok(Some(block()))).unwrap();
    let r = |n: &str| n.repeat(32);
    assert_eq!(
        v,
        json(&format!(
            "{{\"hash\":\"{}\",\"height\":12,\"timestamp\":34,\"tx_count\":2,\"transactions\":[\"{}\",\"{}\"],\"prev_block_id\":\"{}\",\"difficulty_target\":\"{}\",\"nonce\":56,\"state_root\":\"{}\",\"tx_root\":\"{}\"}}",
            r("06"), r("07"), r("08"), r("01"), r("02"), r("05"), r("04")
        ))
    );
    assert_eq!(block_result(&Hash256([6; 32]), Ok(None)).unwrap_err().message, "Block not found");
    assert!(block_result(&Hash256([6; 32]), Err("io".to_string())).is_err());
}

#[test]
fn transactions_are_found() {
    let mut l = TransactionLookup::new(Hash256([8; 32]));
    l.advance(LookupReply::Mempool(true));
    assert!(matches!(l.step, LookupStep::Waiting));
    let mut l = TransactionLookup::new(Hash256([8; 32]));
    assert!(matches!(l.step, LookupStep::Mempool));
    l.advance(LookupReply::Mempool(false));
    assert!(matches!(l.step, LookupStep::Height));
    l.advance(LookupReply::Height(Some(12)));
    assert!(matches!(l.step, LookupStep::BlockId { height: 12 }));
    l.advance(LookupReply::BlockId(Some(Hash256([6; 32]))));
    assert!(matches!(l.step, LookupStep::Block(_)));
    l.advance(LookupReply::Block(Some(block())));
    assert!(matches!(l.step, LookupStep::InBlock { index: 1, place } if place.height == 12));
    for stop in 0..4 {
        let mut l = TransactionLookup::new(Hash256([9; 32]));
        l.advance(LookupReply::Mempool(false));
        l.advance(LookupReply::Height(if stop == 0 { None } else { Some(12) }));
        l.advance(LookupReply::BlockId(if stop == 1 { None } else { Some(Hash256([6; 32])) }));
        l.advance(LookupReply::Block(if stop == 2 { None } else { Some(block()) }));
        assert!(matches!(l.step, LookupStep::Missing));
    }
    let e = transaction_not_found();
    assert_eq!((e.code, e.message.as_str()), (INVALID_PARAMS, "Transaction not found"));
}

#[test]
fn transactions_are_shown() {
    let v = transaction_result("ab", Ok(vec![1, 2]), None).unwrap();
    assert_eq!(v, json("{\"tx_id\":\"ab\",\"tx_hex\":\"0102\",\"in_mempool\":true}"));
    let place = BlockPlace { block_id: Hash256([6; 32]), height: 12 };
    let v = transaction_result("ab", Ok(vec![1, 2]), Some(place)).unwrap();
    assert_eq!(
        v,
        json(&format!(
            "{{\"tx_id\":\"ab\",\"tx_hex\":\"0102\",\"in_mempool\":false,\"block_hash\":\"{}\",\"block_height\":12}}",
            "06".repeat(32)
        ))
    );
    let e = transaction_result("ab", Err("X".to_string()), None).unwrap_err();
    assert_eq!((e.code, e.message.as_str()), (INTERNAL_ERROR, "Serialization error: X"));
}

#[test]
fn spends_are_shown() {
    assert_eq!(spent_by_result(Ok(None)).unwrap(), json("{\"spent\":false}"));
    let rec = SpendRecord { spending_tx_id: Hash256([3; 32]), input_index: 1, block_height: 2 };
    assert_eq!(
        spent_by_result(Ok(Some(rec))).unwrap(),
        json(&format!(
            "{{\"spent\":true,\"spending_tx_id\":\"{}\",\"input_index\":1,\"block_height\":2}}",
            "03".repeat(32)
        ))
    );
    assert_eq!(spent_by_result(Err("io".to_string())).unwrap_err().message, "Storage error: io");
}

#[test]
fn submissions_pass_every_check() {
    assert_eq!(decode_submission("0102").unwrap(), vec![1, 2]);
    assert_eq!(
        decode_submission("012").unwrap_err().message,
        "Invalid hex: Odd number of digits"
    );
    assert!(check_consumed(5, 5).is_none());
    let tip = Hash256([1; 32]);
    let replies = |bad: usize| -> Vec<SubmitReply> {
        let ok = |i: usize, m: &str| if i == bad { Err(m.to_string()) } else { Ok(()) };
        vec![
            SubmitReply::Deserialized(if bad == 0 { Err("d".to_string()) } else { Ok(5) }),
            SubmitReply::Identified(ok(1, "i")),
            SubmitReply::PreChecked(ok(2, "p")),
            SubmitReply::Validated { tip, verdict: ok(3, "v") },
            SubmitReply::Tip(if bad == 4 { Hash256([2; 32]) } else { tip }),
            SubmitReply::Added(if bad == 5 { Err("a".to_string()) } else { Ok(Hash256([3; 32])) }),
        ]
    };
    let run = |bad: usize| {
        let mut s = Submission::new(5);
        for r in replies(bad) {
            s.advance(r);
        }
        s.step
    };
    let faults = [
        (0, INVALID_PARAMS, "Failed to deserialize transaction: d"),
        (1, INTERNAL_ERROR, "Failed to compute tx_id: i"),
        (2, INVALID_PARAMS, "Mempool pre-check failed: p"),
        (3, INVALID_PARAMS, "Transaction validation failed: v"),
        (4, INTERNAL_ERROR, "Tip changed during validation, try again"),
        (5, INVALID_PARAMS, "Mempool rejected transaction: a"),
    ];
    for (bad, code, message) in faults {
        match run(bad) {
            SubmitStep::Refuse(e) => assert_eq!((e.code, e.message.as_str()), (code, message)),
            other => panic!("expected a refusal, got {:?}", other),
        }
    }
    assert!(matches!(run(9), SubmitStep::Relay { tx_id } if tx_id == Hash256([3; 32])));
    let mut s = Submission::new(7);
    s.advance(SubmitReply::Deserialized(Ok(5)));
    match s.step {
        SubmitStep::Refuse(e) => {
            assert_eq!(e.message, "Trailing bytes after transaction: consumed 5 of 7")
        }
        other => panic!("expected a refusal, got {:?}", other),
    }
}

#[test]
fn responses_are_made() {
    let r = RpcResponse::ok(json("1"), json("2"));
    assert_eq!((r.id, r.result), (json("1"), Some(json("2"))));
    assert!(r.error.is_none());
    let r = RpcResponse::of(json("1"), Err(trouble(Trouble::Params, "x")));
    let e = r.error.unwrap();
    assert_eq!((e.code, e.message.as_str()), (INVALID_PARAMS, "Invalid params: x"));
    assert!(r.result.is_none());
    let r = RpcResponse::parse_error();
    assert_eq!(r.id, Value::Null);
    assert_eq!(r.error.unwrap().message, "Parse error");
}

#[test]
fn calls_are_prepared() {
    let c = match prepare_call("http://h:1/x", "get_block", json("{\"height\":3}")) {
        Ok(c) => c,
        Err(e) => panic!("{}", e),
    };
    assert_eq!(c.address, "h:1");
    let body: Value = serde_json::from_slice(&c.body).unwrap();
    assert_eq!(
        body,
        json("{\"jsonrpc\":\"2.0\",\"method\":\"get_block\",\"params\":{\"height\":3},\"id\":1}")
    );
    assert!(c.head.contains(&format!("Content-Length: {}\r\n", c.body.len())));
    assert!(c.head.starts_with("POST / HTTP/1.1\r\nHost: h:1\r\n"));
}

#[test]
fn answers_are_read() {
    assert_eq!(read_answer(b"{\"result\":{\"a\":[1]},\"id\":1}").unwrap(), json("{\"a\":[1]}"));
    assert_eq!(read_answer(b"{\"result\":null,\"error\":null}").unwrap(), Value::Null);
    assert_eq!(
        read_answer(b"{\"error\":{\"message\":\"boom\"},\"result\":1}").unwrap_err(),
        "RPC error: boom"
    );
    assert_eq!(read_answer(b"{\"error\":{\"code\":1}}").unwrap_err(), "RPC error: unknown error");
    assert_eq!(read_answer(b"{\"error\":\"x\"}").unwrap_err(), "RPC error: unknown error");
    assert_eq!(
        read_answer(b"{\"error\":{\"message\":5}}").unwrap_err(),
        "RPC error: unknown error"
    );
    assert_eq!(read_answer(b"{}").unwrap_err(), "Missing 'result' in RPC response");
    assert_eq!(read_answer(b"[1]").unwrap_err(), "Missing 'result' in RPC response");
    assert!(read_answer(b"{").unwrap_err().starts_with("JSON parse error: "));
    assert_eq!(interpret_answer(&json("{\"result\":7}")).unwrap(), json("7"));
}
