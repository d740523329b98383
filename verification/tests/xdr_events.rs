use stellar_mixer_treepir_server::apply::apply_rpc_event;
use stellar_mixer_treepir_server::config::{EnvVars, ServerConfig};
use stellar_mixer_treepir_server::events::MixerTreeEvent;
use stellar_mixer_treepir_server::fetch::{
    GetLedgersResponse, GetLedgersResult, JsonRpcError, LedgerPager, RpcLedger,
};
use stellar_mixer_treepir_server::indexer::StellarMixerIndexer;
use stellar_mixer_treepir_server::ledger_events::{
    collect_mixer_events_from_ledger_close_meta, LocalLedgerEvent,
};
use stellar_mixer_treepir_server::ledger_meta::{ContractEventData, LedgerEvents};
use stellar_mixer_treepir_server::rpc_events::{parse_mixer_tree_event, topic_symbols, RpcEvent};
use stellar_mixer_treepir_server::scval::{scval_json_from_base64, ScValue};
use stellar_mixer_treepir_server::scval_events::{
    parse_contract_event_fast, scval_to_hash, scval_to_hash_vec, scval_to_u64,
};
use stellar_mixer_treepir_server::state_store::Lookup;
use stellar_xdr::{
    ContractEvent, ContractEventBody, ContractEventV0, ContractId, LedgerCloseMeta,
    LedgerCloseMetaV0, LedgerCloseMetaV1, LedgerCloseMetaV2, Limits, OperationMetaV2, ScBytes,
    ScMap, ScMapEntry, ScString, ScSymbol, ScVal, ScVec, SorobanTransactionMeta, TransactionMeta,
    TransactionMetaV3, TransactionMetaV4, TransactionResultMeta, TransactionResultMetaV1, WriteXdr,
};

const CONTRACT: [u8; 32] = [0xcc; 32];

fn symbol(text: &str) -> ScVal {
    ScVal::Symbol(ScSymbol(text.try_into().unwrap()))
}

fn bytes(content: &[u8]) -> ScVal {
    ScVal::Bytes(ScBytes(content.to_vec().try_into().unwrap()))
}

fn list(items: Vec<ScVal>) -> ScVal {
    ScVal::Vec(Some(ScVec(items.try_into().unwrap())))
}

fn map(entries: Vec<(&str, ScVal)>) -> ScVal {
    let entries: Vec<ScMapEntry> = entries
        .into_iter()
        .map(|(key, val)| ScMapEntry { key: symbol(key), val })
        .collect();
    ScVal::Map(Some(ScMap(entries.try_into().unwrap())))
}

fn base64(value: &ScVal) -> String {
    value.to_xdr_base64(Limits::none()).unwrap()
}

fn event(contract: Option<[u8; 32]>, topics: Vec<ScVal>, data: ScVal) -> ContractEvent {
    ContractEvent {
        contract_id: contract.map(|id| ContractId(stellar_xdr::Hash(id))),
        body: ContractEventBody::V0(ContractEventV0 { topics: topics.try_into().unwrap(), data }),
        ..Default::default()
    }
}

fn deposit(contract: [u8; 32], index: u64) -> ContractEvent {
    event(
        Some(contract),
        vec![symbol("mixer"), symbol("deposit")],
        map(vec![
            ("index", ScVal::U64(index)),
            ("leaf", bytes(&[1; 32])),
            ("root", bytes(&[2; 32])),
        ]),
    )
}

fn soroban(events: Vec<ContractEvent>) -> TransactionMeta {
    TransactionMeta::V3(TransactionMetaV3 {
        soroban_meta: Some(SorobanTransactionMeta {
            events: events.try_into().unwrap(),
            ..Default::default()
        }),
        ..Default::default()
    })
}

fn operations(events: Vec<Vec<ContractEvent>>) -> TransactionMeta {
    let operations: Vec<OperationMetaV2> = events
        .into_iter()
        .map(|events| OperationMetaV2 { events: events.try_into().unwrap(), ..Default::default() })
        .collect();
    TransactionMeta::V4(TransactionMetaV4 {
        operations: operations.try_into().unwrap(),
        ..Default::default()
    })
}

fn ledger(transactions: Vec<TransactionMeta>) -> LedgerCloseMeta {
    let processing: Vec<TransactionResultMeta> = transactions
        .into_iter()
        .map(|meta| TransactionResultMeta { tx_apply_processing: meta, ..Default::default() })
        .collect();
    LedgerCloseMeta::V0(LedgerCloseMetaV0 {
        tx_processing: processing.try_into().unwrap(),
        ..Default::default()
    })
}

fn collected(ledger_number: u32, meta: &LedgerCloseMeta) -> Vec<LocalLedgerEvent> {
    let text = meta.to_xdr_base64(Limits::none()).unwrap();
    let events = LedgerEvents::from_xdr_base64(&text).unwrap();
    let mut out = Vec::new();
    assert!(collect_mixer_events_from_ledger_close_meta(
        ledger_number,
        &events,
        &CONTRACT,
        &mut out
    )
    .is_ok());
    out
}

fn reported(topic: Vec<ScVal>, value: ScVal) -> RpcEvent {
    RpcEvent {
        id: "event-9".to_string(),
        contract_id: "CONTRACT".to_string(),
        ledger: 7,
        topic: topic.iter().map(base64).collect(),
        value: base64(&value),
    }
}

#[test]
fn reads_reported_deposit() {
    let value = map(vec![
        ("index", ScVal::U64(7)),
        ("leaf", bytes(&[1; 32])),
        ("root", bytes(&[2; 32])),
    ]);
    let event = reported(vec![symbol("mixer"), symbol("deposit")], value);
    assert_eq!(
        topic_symbols(&event.topic).ok().unwrap().contains(&"deposit".to_string()),
        true
    );
    match parse_mixer_tree_event(&event).ok().unwrap() {
        Some(MixerTreeEvent::Deposit { index, leaf, root }) => {
            assert_eq!(index, 7);
            assert_eq!(leaf, [1; 32]);
            assert_eq!(root, [2; 32]);
        }
        other => panic!("unexpected event: {other:?}"),
    }
    assert!(apply_rpc_event(&event, "CONTRACT", Lookup::Absent).ok().unwrap().is_some());
}

#[test]
fn reads_reported_transfer() {
    let value = map(vec![
        ("output_leaves", list(vec![bytes(&[5; 32]), bytes(&[6; 32])])),
        ("root", bytes(&[7; 32])),
        ("start_index", ScVal::U32(9)),
    ]);
    let event = reported(vec![symbol("mixer"), symbol("transfer")], value);
    match parse_mixer_tree_event(&event).ok().unwrap() {
        Some(MixerTreeEvent::Transfer { start_index, output_leaves, root }) => {
            assert_eq!(start_index, 9);
            assert_eq!(output_leaves, vec![[5; 32], [6; 32]]);
            assert_eq!(root, [7; 32]);
        }
        other => panic!("unexpected event: {other:?}"),
    }
}

#[test]
fn names_what_was_not_decoded() {
    let mut event = reported(vec![symbol("mixer")], ScVal::Void);
    assert!(parse_mixer_tree_event(&event).ok().unwrap().is_none());
    event.value = "AAAA".to_string();
    let message = parse_mixer_tree_event(&event).err().unwrap().message();
    assert!(message.starts_with(
        "failed to decode event value XDR for event-9: \
         failed to decode Stellar ScVal base64 XDR: "
    ));
    event.topic.push("?".to_string());
    let message = parse_mixer_tree_event(&event).err().unwrap().message();
    assert!(message.starts_with("failed to decode event topic XDR: "));
    assert!(scval_json_from_base64("?").is_err());
    assert_eq!(
        scval_json_from_base64("AAAAYw==").err().unwrap().message(),
        "failed to decode Stellar ScVal base64 XDR: xdr value invalid"
    );
    let event = reported(vec![symbol("deposit")], map(vec![("index", symbol("x"))]));
    let message = parse_mixer_tree_event(&event).err().unwrap().message();
    assert!(message.starts_with("invalid u64 field [\"index\"]: "));
}

#[test]
fn reads_contract_events() {
    let data = ContractEventData::from_event(&deposit(CONTRACT, 7));
    match parse_contract_event_fast(&data).ok().unwrap() {
        Some(MixerTreeEvent::Deposit { index, leaf, root }) => {
            assert_eq!(index, 7);
            assert_eq!(leaf, [1; 32]);
            assert_eq!(root, [2; 32]);
        }
        other => panic!("unexpected event: {other:?}"),
    }
    let change = event(
        Some(CONTRACT),
        vec![
            ScVal::String(ScString("mixer".try_into().unwrap())),
            ScVal::String(ScString("withdraw".try_into().unwrap())),
        ],
        list(vec![map(vec![
            ("change_index", ScVal::I64(8)),
            ("leaf", bytes(&[3; 32])),
            ("root", bytes(&[4; 32])),
        ])]),
    );
    assert!(matches!(
        parse_contract_event_fast(&ContractEventData::from_event(&change)).ok().unwrap(),
        Some(MixerTreeEvent::WithdrawChange { index: 8, leaf, .. }) if leaf == [3; 32]
    ));
    let other = event(Some(CONTRACT), vec![symbol("deposit")], ScVal::Void);
    assert!(parse_contract_event_fast(&ContractEventData::from_event(&other))
        .ok()
        .unwrap()
        .is_none());
    let init = event(Some(CONTRACT), vec![symbol("mixer"), symbol("init")], ScVal::Void);
    assert!(parse_contract_event_fast(&ContractEventData::from_event(&init))
        .ok()
        .unwrap()
        .is_none());
}

#[test]
fn reads_contract_values() {
    assert_eq!(scval_to_u64(&ScValue::U64(u64::MAX)).ok(), Some(u64::MAX));
    assert_eq!(scval_to_u64(&ScValue::I32(5)).ok(), Some(5));
    let not_a_number = "not a u64-compatible ScVal";
    assert_eq!(scval_to_u64(&ScValue::I64(-1)).err().unwrap().message(), not_a_number);
    assert_eq!(scval_to_u64(&ScValue::Other).err().unwrap().message(), not_a_number);
    assert_eq!(
        scval_to_hash(&ScValue::Bytes(vec![1; 31])).err().unwrap().message(),
        "expected 32-byte hash, got 31 bytes"
    );
    assert_eq!(
        scval_to_hash(&ScValue::from_scval(&symbol("x"))).err().unwrap().message(),
        "not a bytes ScVal"
    );
    assert_eq!(scval_to_hash_vec(&ScValue::List(None)).ok(), Some(vec![]));
    assert_eq!(
        scval_to_hash_vec(&ScValue::U32(1)).err().unwrap().message(),
        "not a vec ScVal"
    );
}

#[test]
fn collects_events_of_the_contract_with_their_places() {
    let out = collected(
        99,
        &ledger(vec![
            TransactionMeta::default(),
            soroban(vec![deposit([0xdd; 32], 0), deposit(CONTRACT, 1)]),
            operations(vec![vec![], vec![deposit(CONTRACT, 2), deposit(CONTRACT, 3)]]),
        ]),
    );
    let found: Vec<(&str, u32, u32)> = out
        .iter()
        .map(|event| (event.id.as_str(), event.ledger, event.order))
        .collect();
    assert_eq!(
        found,
        vec![
            ("ledger-meta:99:tx:1:soroban:1", 99, 0),
            ("ledger-meta:99:tx:2:op:1:event:0", 99, 1),
            ("ledger-meta:99:tx:2:op:1:event:1", 99, 2),
        ]
    );
    assert!(matches!(out[1].parsed, MixerTreeEvent::Deposit { index: 2, .. }));
}

#[test]
fn reads_all_versions_of_ledgers() {
    let v1 = LedgerCloseMeta::V1(LedgerCloseMetaV1 {
        tx_processing: vec![TransactionResultMeta {
            tx_apply_processing: soroban(vec![deposit(CONTRACT, 1)]),
            ..Default::default()
        }]
        .try_into()
        .unwrap(),
        ..Default::default()
    });
    assert_eq!(collected(5, &v1)[0].id, "ledger-meta:5:tx:0:soroban:0");
    let v2 = LedgerCloseMeta::V2(LedgerCloseMetaV2 {
        tx_processing: vec![TransactionResultMetaV1 {
            tx_apply_processing: operations(vec![vec![deposit(CONTRACT, 1)]]),
            ..Default::default()
        }]
        .try_into()
        .unwrap(),
        ..Default::default()
    });
    assert_eq!(collected(6, &v2)[0].id, "ledger-meta:6:tx:0:op:0:event:0");
    let no_soroban = ledger(vec![TransactionMeta::V3(TransactionMetaV3::default())]);
    assert!(collected(7, &no_soroban).is_empty());
}

#[test]
fn events_come_out_as_on_the_chain() {
    let mut transactions = vec![TransactionMeta::default(); 11];
    transactions[2] = soroban((3..14).map(|index| deposit(CONTRACT, index)).collect());
    let mut in_operations = vec![vec![]; 11];
    in_operations[2] = vec![deposit(CONTRACT, 14)];
    in_operations[10] = vec![deposit(CONTRACT, 15)];
    transactions[10] = operations(in_operations);
    let later = RpcLedger {
        sequence: 12,
        metadata_xdr: ledger(transactions).to_xdr_base64(Limits::none()).unwrap(),
    };
    let page = vec![later, reported_ledger(10, 1), reported_ledger(11, 2)];
    let pager = LedgerPager::events_from_ledger_close_meta_range(10, 13, 200, CONTRACT).unwrap();
    let out = pager.accept_response(answer(page, None)).ok().unwrap().finish();
    let indices: Vec<u64> = out
        .iter()
        .map(|event| match event.parsed {
            MixerTreeEvent::Deposit { index, .. } => index,
            _ => u64::MAX,
        })
        .collect();
    assert_eq!(indices, (1..16).collect::<Vec<u64>>());
    assert_eq!(out[2].id, "ledger-meta:12:tx:2:soroban:0");
    assert_eq!(out[4].id, "ledger-meta:12:tx:2:soroban:2");
    assert_eq!(out[12].id, "ledger-meta:12:tx:2:soroban:10");
    assert_eq!(out[13].id, "ledger-meta:12:tx:10:op:2:event:0");
    assert_eq!(out[14].id, "ledger-meta:12:tx:10:op:10:event:0");
}

fn reported_ledger(sequence: u32, index: u64) -> RpcLedger {
    let meta = ledger(vec![soroban(vec![deposit(CONTRACT, index)])]);
    RpcLedger { sequence, metadata_xdr: meta.to_xdr_base64(Limits::none()).unwrap() }
}

fn answer(ledgers: Vec<RpcLedger>, cursor: Option<&str>) -> GetLedgersResponse {
    GetLedgersResponse {
        result: Some(GetLedgersResult { ledgers, cursor: cursor.map(str::to_string) }),
        error: None,
    }
}

#[test]
fn reads_ledgers_page_by_page() {
    let pager = LedgerPager::events_from_ledger_close_meta_range(10, 13, 2, CONTRACT).unwrap();
    let request = pager.next_page().unwrap();
    assert_eq!(request.start_ledger, 10);
    assert_eq!(request.cursor, None);
    assert_eq!(request.limit, 2);
    let page = vec![reported_ledger(12, 2), reported_ledger(9, 0)];
    let pager = pager.accept_response(answer(page, Some("next"))).ok().unwrap();
    assert_eq!(pager.next_page().unwrap().cursor, Some("next".to_string()));
    let page = vec![reported_ledger(10, 1), reported_ledger(13, 3)];
    let pager = pager.accept_response(answer(page, Some("more"))).ok().unwrap();
    assert!(pager.next_page().is_none());
    let ids: Vec<String> = pager.finish().into_iter().map(|event| event.id).collect();
    assert_eq!(
        ids,
        vec!["ledger-meta:10:tx:0:soroban:0", "ledger-meta:12:tx:0:soroban:0"]
    );
}

#[test]
fn indexer_reads_the_events_of_its_contract() {
    let vars = EnvVars {
        bind_addr: None,
        stellar_rpc_url: None,
        mixer_contract_id: Ok(format!("{}", stellar_strkey::Contract(CONTRACT))),
        start_ledger: None,
        db_path: None,
        poll_interval_ms: None,
        batch_ledgers: None,
        events_limit: None,
        event_finality_lag: None,
        catchup_sleep_ms: None,
    };
    let config = ServerConfig::from_env(vars).unwrap();
    let indexer = StellarMixerIndexer::new(&config).unwrap();
    let pager = indexer.events_from_ledger_close_meta_range(10, 13).unwrap();
    let page = vec![reported_ledger(10, 1)];
    let pager = pager.accept_response(answer(page, None)).ok().unwrap();
    assert_eq!(pager.finish().len(), 1);
}

#[test]
fn last_page_of_ledgers_is_short_or_has_no_cursor() {
    let start = || LedgerPager::events_from_ledger_close_meta_range(10, 13, 1, CONTRACT).unwrap();
    let pager = start().accept_response(answer(vec![], Some("next"))).ok().unwrap();
    assert!(pager.next_page().is_none());
    let page = vec![reported_ledger(10, 1)];
    let pager = start().accept_response(answer(page, None)).ok().unwrap();
    assert!(pager.next_page().is_none());
    assert!(LedgerPager::events_from_ledger_close_meta_range(13, 13, 1, CONTRACT).is_none());
}

#[test]
fn refused_ledgers_are_named() {
    let start = || LedgerPager::events_from_ledger_close_meta_range(10, 13, 1, CONTRACT).unwrap();
    let refused = GetLedgersResponse {
        result: None,
        error: Some(JsonRpcError { code: -32602, message: "out of range".to_string() }),
    };
    assert_eq!(
        start().accept_response(refused).err().unwrap().message(),
        "getLedgers RPC error for ledger range [10, 13): code=-32602, message=out of range"
    );
    let nothing = GetLedgersResponse { result: None, error: None };
    assert_eq!(
        start().accept_response(nothing).err().unwrap().message(),
        "getLedgers response missing result"
    );
    let broken = RpcLedger { sequence: 11, metadata_xdr: "?".to_string() };
    assert!(start()
        .accept_response(answer(vec![broken], None))
        .err()
        .unwrap()
        .message()
        .starts_with("failed to decode LedgerCloseMeta for ledger 11: "));
    let bad = ledger(vec![soroban(vec![event(
        Some(CONTRACT),
        vec![symbol("mixer"), symbol("deposit")],
        map(vec![("index", ScVal::U64(1)), ("leaf", ScVal::U64(1))]),
    )])]);
    let bad = RpcLedger {
        sequence: 12,
        metadata_xdr: bad.to_xdr_base64(Limits::none()).unwrap(),
    };
    assert_eq!(
        start().accept_response(answer(vec![bad], None)).err().unwrap().message(),
        "failed to extract mixer events from LedgerCloseMeta for ledger 12: \
         invalid hash field [\"leaf\"]: not a bytes ScVal"
    );
}
