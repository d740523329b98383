use stellar_mixer_treepir_server::config::{EnvVars, ServerConfig};
use stellar_mixer_treepir_server::fetch::{EventPager, PageStart};
use stellar_mixer_treepir_server::indexer::{
    is_probably_transient_rpc_error, transient_rpc_backoff, CatchUp, NextStep, StellarMixerIndexer,
};
use stellar_mixer_treepir_server::order::sort_events;
use stellar_mixer_treepir_server::rpc_events::RpcEvent;

fn event(ledger: u32, id: &str, value: &str) -> RpcEvent {
    RpcEvent {
        id: id.to_string(),
        contract_id: "CONTRACT".to_string(),
        ledger,
        topic: vec![],
        value: value.to_string(),
    }
}

fn names(events: &[RpcEvent]) -> Vec<(u32, &str, &str)> {
    events
        .iter()
        .map(|event| (event.ledger, event.id.as_str(), event.value.as_str()))
        .collect()
}

#[test]
fn events_are_sorted_by_ledger_and_id() {
    let sorted = sort_events(vec![
        event(2, "tx:2", "a"),
        event(1, "b", "b"),
        event(2, "tx:10", "c"),
        event(1, "b", "d"),
        event(1, "a", "e"),
        event(1, "", "f"),
    ]);
    assert_eq!(
        names(&sorted),
        vec![
            (1, "", "f"),
            (1, "a", "e"),
            (1, "b", "b"),
            (1, "b", "d"),
            (2, "tx:10", "c"),
            (2, "tx:2", "a"),
        ]
    );
}

#[test]
fn fetches_events_page_by_page() {
    let pager = EventPager::events_for_range(10, 20, 2).unwrap().unwrap();
    assert!(matches!(
        pager.next_page(),
        Some(PageStart::Range { start: 10, end_inclusive: 19 })
    ));
    let pager = pager.accept_page(
        vec![event(12, "b", ""), event(11, "a", "")],
        "next".to_string(),
    );
    assert!(matches!(pager.next_page(), Some(PageStart::Cursor(cursor)) if cursor == "next"));
    let pager = pager.accept_page(
        vec![event(20, "d", ""), event(13, "c", "")],
        "more".to_string(),
    );
    assert!(pager.next_page().is_none());
    assert_eq!(
        names(&pager.finish()),
        vec![(11, "a", ""), (12, "b", ""), (13, "c", "")]
    );
}

#[test]
fn last_page_of_events_is_short_or_has_no_cursor() {
    let start = || EventPager::events_for_range(10, 20, 1).unwrap().unwrap();
    assert!(start().accept_page(vec![], "next".to_string()).next_page().is_none());
    assert!(start()
        .accept_page(vec![event(12, "b", "")], String::new())
        .next_page()
        .is_none());
}

#[test]
fn ranges_of_events_fit_32_bits() {
    assert!(EventPager::events_for_range(5, 5, 1).unwrap().is_none());
    let big = u64::from(u32::MAX);
    assert!(EventPager::events_for_range(big, big + 1, 1).unwrap().is_some());
    assert_eq!(
        EventPager::events_for_range(big, big + 2, 1).unwrap_err().message(),
        "end ledger does not fit u32: out of range integral type conversion attempted"
    );
    assert_eq!(
        EventPager::events_for_range(big + 1, big + 2, 1).unwrap_err().message(),
        "start ledger does not fit u32: out of range integral type conversion attempted"
    );
}

fn vars() -> EnvVars {
    EnvVars {
        bind_addr: None,
        stellar_rpc_url: None,
        mixer_contract_id: Ok(contract_id()),
        start_ledger: None,
        db_path: None,
        poll_interval_ms: None,
        batch_ledgers: None,
        events_limit: None,
        event_finality_lag: None,
        catchup_sleep_ms: None,
    }
}

fn contract_id() -> String {
    format!("{}", stellar_strkey::Contract([7u8; 32]))
}

#[test]
fn settings_have_defaults() {
    let config = ServerConfig::from_env(vars()).unwrap();
    assert_eq!(config.bind_addr, "0.0.0.0:3000");
    assert_eq!(config.stellar_rpc_url, "https://soroban-testnet.stellar.org");
    assert_eq!(config.mixer_contract_id, contract_id());
    assert_eq!(config.start_ledger, None);
    assert_eq!(config.db_path, "./treepir-server-state.rocksdb");
    assert_eq!(config.poll_interval_ms, 2000);
    assert_eq!(config.batch_ledgers, 10_000);
    assert_eq!(config.events_limit, 10_000);
    assert_eq!(config.event_finality_lag, 8);
    assert_eq!(config.catchup_sleep_ms, 300);
}

#[test]
fn settings_are_read_and_limited() {
    let config = ServerConfig::from_env(EnvVars {
        bind_addr: Some(Ok("127.0.0.1:1".to_string())),
        stellar_rpc_url: Some("http://rpc".to_string()),
        start_ledger: Some("123".to_string()),
        db_path: Some("db".to_string()),
        poll_interval_ms: Some("0".to_string()),
        batch_ledgers: Some("0".to_string()),
        events_limit: Some("10001".to_string()),
        event_finality_lag: Some("+3".to_string()),
        catchup_sleep_ms: Some("18446744073709551615".to_string()),
        ..vars()
    })
    .unwrap();
    assert_eq!(config.bind_addr, "127.0.0.1:1");
    assert_eq!(config.stellar_rpc_url, "http://rpc");
    assert_eq!(config.start_ledger, Some(123));
    assert_eq!(config.db_path, "db");
    assert_eq!(config.poll_interval_ms, 0);
    assert_eq!(config.batch_ledgers, 1);
    assert_eq!(config.events_limit, 10_000);
    assert_eq!(config.event_finality_lag, 3);
    assert_eq!(config.catchup_sleep_ms, u64::MAX);
    let blank = ServerConfig::from_env(EnvVars {
        start_ledger: Some(" \t".to_string()),
        ..vars()
    });
    assert_eq!(blank.unwrap().start_ledger, None);
}

#[test]
fn wrong_settings_are_named() {
    let message = |vars: EnvVars| ServerConfig::from_env(vars).unwrap_err().message();
    let missing = Err("environment variable not found".to_string());
    assert_eq!(
        message(EnvVars { mixer_contract_id: missing, ..vars() }),
        "missing TREEPIR_MIXER_CONTRACT_ID: environment variable not found"
    );
    assert_eq!(
        message(EnvVars { mixer_contract_id: Ok(" ".to_string()), ..vars() }),
        "TREEPIR_MIXER_CONTRACT_ID is empty"
    );
    let bind_addr = Some(Err("invalid socket address syntax".to_string()));
    assert_eq!(
        message(EnvVars { bind_addr, mixer_contract_id: Ok(String::new()), ..vars() }),
        "invalid TREEPIR_BIND_ADDR: invalid socket address syntax"
    );
    assert_eq!(
        message(EnvVars { start_ledger: Some(" 1".to_string()), ..vars() }),
        "invalid TREEPIR_START_LEDGER: invalid digit found in string"
    );
    assert_eq!(
        message(EnvVars { poll_interval_ms: Some(String::new()), ..vars() }),
        "invalid TREEPIR_POLL_INTERVAL_MS: cannot parse integer from empty string"
    );
    assert_eq!(
        message(EnvVars { batch_ledgers: Some("-1".to_string()), ..vars() }),
        "invalid TREEPIR_BATCH_LEDGERS: invalid digit found in string"
    );
    assert_eq!(
        message(EnvVars { events_limit: Some("4294967296".to_string()), ..vars() }),
        "invalid TREEPIR_EVENTS_LIMIT: number too large to fit in target type"
    );
    assert_eq!(
        message(EnvVars { event_finality_lag: Some("x".to_string()), ..vars() }),
        "invalid TREEPIR_EVENT_FINALITY_LAG: invalid digit found in string"
    );
    assert_eq!(
        message(EnvVars { catchup_sleep_ms: Some("+".to_string()), ..vars() }),
        "invalid TREEPIR_CATCHUP_SLEEP_MS: invalid digit found in string"
    );
}

fn indexer(vars: EnvVars) -> StellarMixerIndexer {
    StellarMixerIndexer::new(&ServerConfig::from_env(vars).unwrap()).unwrap()
}

#[test]
fn contract_id_is_a_strkey() {
    let made = indexer(vars());
    assert_eq!(made.contract_id(), contract_id());
    assert_eq!(made.events_limit(), 10_000);
    assert_eq!(made.catchup_sleep_ms(), 300);
    assert_eq!(
        made.events_from_ledger_close_meta_range(1, 2).unwrap().next_page().unwrap().limit,
        200
    );
    let config = ServerConfig::from_env(EnvVars {
        mixer_contract_id: Ok("CONTRACT".to_string()),
        ..vars()
    });
    assert!(StellarMixerIndexer::new(&config.unwrap()).is_none());
    let small = indexer(EnvVars { events_limit: Some("7".to_string()), ..vars() });
    assert_eq!(
        small.events_from_ledger_close_meta_range(1, 2).unwrap().next_page().unwrap().limit,
        7
    );
    assert!(small.events_for_range(1, 2).unwrap().is_some());
}

#[test]
fn catching_up_reads_ranges_in_order() {
    let mut catch_up = CatchUp::catch_up_to(4, 11, 3);
    let mut seen = Vec::new();
    while let Some((from, end)) = catch_up.next_range() {
        let done = catch_up.range_done(1);
        seen.push((from, end, done.last_indexed_ledger, done.sleep));
    }
    assert_eq!(
        seen,
        vec![(5, 8, 7, true), (8, 11, 10, true), (11, 12, 11, false)]
    );
    assert!(CatchUp::catch_up_to(11, 11, 3).next_range().is_none());
    let mut quick = CatchUp::catch_up_to(4, 11, 3);
    assert!(!quick.range_done(0).sleep);
}

#[test]
fn startup_stays_behind_the_latest_ledgers() {
    let made = indexer(vars());
    assert_eq!(made.catch_up_once(4, 20).next_range(), Some((5, 13)));
    assert_eq!(made.catch_up_once(12, 20).next_range(), None);
    assert_eq!(made.catch_up_once(0, 5).next_range(), None);
    assert_eq!(made.catch_up_live_once(4, 20).next_range(), Some((5, 21)));
}

#[test]
fn passing_failures_are_retried() {
    let made = indexer(vars());
    assert_eq!(made.after_attempt(3, None), NextStep::Poll { failures: 0, sleep_ms: 2000 });
    assert_eq!(
        made.after_attempt(0, Some("Connection Reset by peer")),
        NextStep::Retry { failures: 1, backoff_secs: 2 }
    );
    assert_eq!(
        made.after_attempt(4, Some("status 503")),
        NextStep::Retry { failures: 5, backoff_secs: 30 }
    );
    assert_eq!(
        made.after_attempt(u32::MAX, Some("TIMED OUT")),
        NextStep::Retry { failures: u32::MAX, backoff_secs: 30 }
    );
    assert_eq!(
        made.after_attempt(0, Some("deposit root mismatch")),
        NextStep::Stop
    );
    let waits: Vec<u64> = (0..7).map(transient_rpc_backoff).collect();
    assert_eq!(waits, vec![2, 2, 4, 8, 16, 30, 30]);
}

#[test]
fn failures_are_counted_from_the_last_success() {
    let made = indexer(vars());
    let timeout = Some("timeout");
    let mut failures = 0;
    let mut counts = vec![];
    for error in [timeout, timeout, None, None, timeout, Some("wrong root"), timeout] {
        failures = match made.after_attempt(failures, error) {
            NextStep::Poll { failures, .. } => failures,
            NextStep::Retry { failures, .. } => failures,
            NextStep::Stop => break,
        };
        counts.push(failures);
    }
    assert_eq!(counts, vec![1, 2, 0, 0, 1]);
}

#[test]
fn passing_failures_are_recognised() {
    for text in [
        "SendRequest",
        "error sending request",
        "request failed",
        "connection",
        "unexpected EOF",
        "broken pipe",
        "timeout",
        "timed out",
        "DNS",
        "TLS",
        "hyper",
        "HTTP error",
        "429",
        "502",
        "503",
        "504",
    ] {
        assert!(is_probably_transient_rpc_error(&format!("a {text} b")), "{text}");
    }
    for text in ["", "500", "time out", "connectio"] {
        assert!(!is_probably_transient_rpc_error(text), "{text}");
    }
}
