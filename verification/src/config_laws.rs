//! What the settings come to.
use vstd::prelude::*;
use vstd::string::*;

use crate::config::{ConfigError, EnvVars, NumberSetting, ServerConfig};
use crate::hash_laws::all_space;
use crate::text::parsed_number;
use crate::text_laws::{blank_is_white_space, number_text_is_read, writes_number};

verus! {

/// A number setting is `n`: as it is written, or by default where it is not set.
pub open spec fn is_set_to(value: Option<String>, default: nat, max: nat, n: nat) -> bool {
    match value {
        Some(s) => n <= max && writes_number(s@, n),
        None => n == default,
    }
}

/// A number setting is not set, or writes a number up to `max`.
pub open spec fn is_fine(value: Option<String>, max: nat) -> bool {
    value matches Some(s) ==> exists|n: nat| n <= max && #[trigger] writes_number(s@, n)
}

/// The ledger to start from is not set, blank, or a number.
pub open spec fn start_is_fine(value: Option<String>) -> bool {
    value matches Some(s) ==> all_space(s@) || exists|n: nat|
        n <= u64::MAX && #[trigger] writes_number(s@, n)
}

/// The contract is named, and not by white space.
pub open spec fn contract_is_fine(value: Result<String, String>) -> bool {
    value matches Ok(id) && !all_space(id@)
}

/// A limit is a number from 1 to 10000, the nearest to what is set.
pub open spec fn is_limited_to(value: Option<String>, max: nat, limit: nat) -> bool {
    exists|n: nat| #[trigger]
        is_set_to(value, 10000, max, n) && limit == if n < 1 {
            1
        } else if n > 10000 {
            10000
        } else {
            n
        }
}

proof fn lemma_number(s: Seq<char>, max: nat)
    ensures
        parsed_number(s, max) matches Ok(n) ==> n <= max && writes_number(s, n),
        parsed_number(s, max) is Err ==> forall|n: nat| n <= max ==> !(#[trigger] writes_number(
            s,
            n,
        )),
{
    match parsed_number(s, max) {
        Ok(n) => number_text_is_read(s, max, n),
        Err(_) => {
            assert forall|n: nat| n <= max implies !(#[trigger] writes_number(s, n)) by {
                number_text_is_read(s, max, n);
            }
        },
    }
}

proof fn lemma_setting(value: Option<String>, max: nat)
    ensures
        value matches Some(s) ==> (parsed_number(s@, max) matches Ok(n) ==> n <= max
            && writes_number(s@, n)),
        value matches Some(s) ==> (parsed_number(s@, max) is Ok <==> is_fine(value, max)),
{
    match value {
        Some(s) => {
            lemma_number(s@, max);
        },
        None => {},
    }
}

/// The settings are taken if and only if the address to listen on is a socket address,
/// the contract is named, and each number is one; each of them then is what is written, or
/// what it is by default.
pub proof fn settings_are_as_written(vars: EnvVars, out: Result<ServerConfig, ConfigError>)
    requires
        call_ensures(ServerConfig::from_env, (vars,), out),
    ensures
        out is Ok <==> {
            &&& !(vars.bind_addr matches Some(Err(_)))
            &&& contract_is_fine(vars.mixer_contract_id)
            &&& start_is_fine(vars.start_ledger)
            &&& is_fine(vars.poll_interval_ms, u64::MAX as nat)
            &&& is_fine(vars.batch_ledgers, u64::MAX as nat)
            &&& is_fine(vars.events_limit, u32::MAX as nat)
            &&& is_fine(vars.event_finality_lag, u64::MAX as nat)
            &&& is_fine(vars.catchup_sleep_ms, u64::MAX as nat)
        },
        out matches Ok(config) ==> {
            &&& match vars.bind_addr {
                Some(Ok(addr)) => config.bind_addr@ == addr@,
                _ => config.bind_addr@ == "0.0.0.0:3000"@,
            }
            &&& match vars.stellar_rpc_url {
                Some(url) => config.stellar_rpc_url@ == url@,
                None => config.stellar_rpc_url@ == "https://soroban-testnet.stellar.org"@,
            }
            &&& vars.mixer_contract_id matches Ok(id) && config.mixer_contract_id@ == id@
            &&& match vars.db_path {
                Some(path) => config.db_path@ == path@,
                None => config.db_path@ == "./treepir-server-state.rocksdb"@,
            }
            &&& match config.start_ledger {
                Some(n) => vars.start_ledger matches Some(s) && writes_number(s@, n as nat),
                None => vars.start_ledger matches Some(s) ==> all_space(s@),
            }
            &&& is_set_to(
                vars.poll_interval_ms,
                2000,
                u64::MAX as nat,
                config.poll_interval_ms as nat,
            )
            &&& is_limited_to(vars.batch_ledgers, u64::MAX as nat, config.batch_ledgers as nat)
            &&& is_limited_to(vars.events_limit, u32::MAX as nat, config.events_limit as nat)
            &&& is_set_to(
                vars.event_finality_lag,
                8,
                u64::MAX as nat,
                config.event_finality_lag as nat,
            )
            &&& is_set_to(
                vars.catchup_sleep_ms,
                300,
                u64::MAX as nat,
                config.catchup_sleep_ms as nat,
            )
        },
{
    lemma_setting(vars.start_ledger, u64::MAX as nat);
    lemma_setting(vars.poll_interval_ms, u64::MAX as nat);
    lemma_setting(vars.batch_ledgers, u64::MAX as nat);
    lemma_setting(vars.events_limit, u32::MAX as nat);
    lemma_setting(vars.event_finality_lag, u64::MAX as nat);
    lemma_setting(vars.catchup_sleep_ms, u64::MAX as nat);
    match vars.mixer_contract_id {
        Ok(id) => blank_is_white_space(id@),
        Err(_) => {},
    }
    match vars.start_ledger {
        Some(s) => {
            blank_is_white_space(s@);
            if start_is_fine(vars.start_ledger) && !all_space(s@) {
                let n = choose|n: nat| n <= u64::MAX && #[trigger] writes_number(s@, n);
                assert(is_fine(vars.start_ledger, u64::MAX as nat));
            }
        },
        None => {},
    }
    match out {
        Ok(config) => {
            let batch = match vars.batch_ledgers {
                Some(s) => parsed_number(s@, u64::MAX as nat)->Ok_0,
                None => 10000,
            };
            assert(is_set_to(vars.batch_ledgers, 10000, u64::MAX as nat, batch));
            let limit = match vars.events_limit {
                Some(s) => parsed_number(s@, u32::MAX as nat)->Ok_0,
                None => 10000,
            };
            assert(is_set_to(vars.events_limit, 10000, u32::MAX as nat, limit));
        },
        Err(_) => {},
    }
}

/// What is wrong is told of the first setting that is wrong: the address, then the
/// contract, then the numbers. A number that is told of is wrong.
pub proof fn first_wrong_setting_is_told(vars: EnvVars, error: ConfigError)
    requires
        call_ensures(ServerConfig::from_env, (vars,), Err::<ServerConfig, ConfigError>(error)),
    ensures
        vars.bind_addr matches Some(Err(why)) ==> (error matches ConfigError::BindAddr(told)
            && told@ == why@),
        !(vars.bind_addr matches Some(Err(_))) ==> (vars.mixer_contract_id matches Err(why) ==> (
        error matches ConfigError::MissingContractId(told) && told@ == why@)),
        !(vars.bind_addr matches Some(Err(_))) ==> (vars.mixer_contract_id matches Ok(id) ==> (
        error is EmptyContractId <==> all_space(id@))),
        error matches ConfigError::Number(setting, _) ==> match setting {
            NumberSetting::StartLedger => !start_is_fine(vars.start_ledger),
            NumberSetting::PollIntervalMs => !is_fine(vars.poll_interval_ms, u64::MAX as nat),
            NumberSetting::BatchLedgers => !is_fine(vars.batch_ledgers, u64::MAX as nat),
            NumberSetting::EventsLimit => !is_fine(vars.events_limit, u32::MAX as nat),
            NumberSetting::EventFinalityLag => !is_fine(vars.event_finality_lag, u64::MAX as nat),
            NumberSetting::CatchupSleepMs => !is_fine(vars.catchup_sleep_ms, u64::MAX as nat),
        },
{
    lemma_setting(vars.start_ledger, u64::MAX as nat);
    lemma_setting(vars.poll_interval_ms, u64::MAX as nat);
    lemma_setting(vars.batch_ledgers, u64::MAX as nat);
    lemma_setting(vars.events_limit, u32::MAX as nat);
    lemma_setting(vars.event_finality_lag, u64::MAX as nat);
    lemma_setting(vars.catchup_sleep_ms, u64::MAX as nat);
    match vars.mixer_contract_id {
        Ok(id) => blank_is_white_space(id@),
        Err(_) => {},
    }
    match vars.start_ledger {
        Some(s) => {
            blank_is_white_space(s@);
            if start_is_fine(vars.start_ledger) && !all_space(s@) {
                assert(is_fine(vars.start_ledger, u64::MAX as nat));
            }
        },
        None => {},
    }
}

} // verus!
