//! The settings of the server.
use vstd::prelude::*;
use vstd::string::*;

use crate::text::{parse_number, parsed_number, trim, trimmed, NumberError};

verus! {

/// A setting that is a number.
#[derive(Debug, Clone, Copy, PartialEq, Eq, Structural)]
pub enum NumberSetting {
    StartLedger,
    PollIntervalMs,
    BatchLedgers,
    EventsLimit,
    EventFinalityLag,
    CatchupSleepMs,
}

impl NumberSetting {
    /// The name of the environment variable.
    pub open spec fn text(self) -> Seq<char> {
        match self {
            NumberSetting::StartLedger => "TREEPIR_START_LEDGER"@,
            NumberSetting::PollIntervalMs => "TREEPIR_POLL_INTERVAL_MS"@,
            NumberSetting::BatchLedgers => "TREEPIR_BATCH_LEDGERS"@,
            NumberSetting::EventsLimit => "TREEPIR_EVENTS_LIMIT"@,
            NumberSetting::EventFinalityLag => "TREEPIR_EVENT_FINALITY_LAG"@,
            NumberSetting::CatchupSleepMs => "TREEPIR_CATCHUP_SLEEP_MS"@,
        }
    }

    /// The name of the environment variable.
    pub fn name(self) -> (out: &'static str)
        ensures
            out@ == self.text(),
    {
        match self {
            NumberSetting::StartLedger => "TREEPIR_START_LEDGER",
            NumberSetting::PollIntervalMs => "TREEPIR_POLL_INTERVAL_MS",
            NumberSetting::BatchLedgers => "TREEPIR_BATCH_LEDGERS",
            NumberSetting::EventsLimit => "TREEPIR_EVENTS_LIMIT",
            NumberSetting::EventFinalityLag => "TREEPIR_EVENT_FINALITY_LAG",
            NumberSetting::CatchupSleepMs => "TREEPIR_CATCHUP_SLEEP_MS",
        }
    }
}

/// Why the settings were refused, in the abstract.
pub enum ConfigFault {
    BindAddr(Seq<char>),
    MissingContractId(Seq<char>),
    EmptyContractId,
    Number(NumberSetting, NumberError),
}

impl ConfigFault {
    /// The error in words.
    pub open spec fn text(self) -> Seq<char> {
        match self {
            ConfigFault::BindAddr(why) => "invalid TREEPIR_BIND_ADDR: "@ + why,
            ConfigFault::MissingContractId(why) => "missing TREEPIR_MIXER_CONTRACT_ID: "@ + why,
            ConfigFault::EmptyContractId => "TREEPIR_MIXER_CONTRACT_ID is empty"@,
            ConfigFault::Number(setting, why) => "invalid "@ + setting.text() + ": "@ + why.text(),
        }
    }
}

/// Why the settings were refused.
#[derive(Debug)]
pub enum ConfigError {
    /// The address to listen on is no socket address; the error in words.
    BindAddr(String),
    /// The contract id is not set; the error in words.
    MissingContractId(String),
    EmptyContractId,
    /// A setting that is no number of its range.
    Number(NumberSetting, NumberError),
}

impl View for ConfigError {
    type V = ConfigFault;

    open spec fn view(&self) -> ConfigFault {
        match *self {
            ConfigError::BindAddr(why) => ConfigFault::BindAddr(why@),
            ConfigError::MissingContractId(why) => ConfigFault::MissingContractId(why@),
            ConfigError::EmptyContractId => ConfigFault::EmptyContractId,
            ConfigError::Number(setting, why) => ConfigFault::Number(setting, why),
        }
    }
}

impl ConfigError {
    pub fn message(&self) -> (out: String)
        ensures
            out@ == self@.text(),
    {
        match self {
            ConfigError::BindAddr(why) => {
                let mut out = "invalid TREEPIR_BIND_ADDR: ".to_owned();
                out.append(why.as_str());
                out
            },
            ConfigError::MissingContractId(why) => {
                let mut out = "missing TREEPIR_MIXER_CONTRACT_ID: ".to_owned();
                out.append(why.as_str());
                out
            },
            ConfigError::EmptyContractId => "TREEPIR_MIXER_CONTRACT_ID is empty".to_owned(),
            ConfigError::Number(setting, why) => {
                let mut out = "invalid ".to_owned();
                out.append(setting.name());
                out.append(": ");
                out.append(why.message());
                out
            },
        }
    }
}

/// The environment variables of the server; none where one is not set.
#[derive(Debug)]
pub struct EnvVars {
    /// Where it is set, the address as it is written, or the error in words where
    /// that is no socket address.
    pub bind_addr: Option<Result<String, String>>,
    pub stellar_rpc_url: Option<String>,
    /// The error in words where it is not set.
    pub mixer_contract_id: Result<String, String>,
    pub start_ledger: Option<String>,
    pub db_path: Option<String>,
    pub poll_interval_ms: Option<String>,
    pub batch_ledgers: Option<String>,
    pub events_limit: Option<String>,
    pub event_finality_lag: Option<String>,
    pub catchup_sleep_ms: Option<String>,
}

/// The settings of the server, in the abstract.
pub struct ConfigView {
    pub bind_addr: Seq<char>,
    pub stellar_rpc_url: Seq<char>,
    pub mixer_contract_id: Seq<char>,
    pub start_ledger: Option<u64>,
    pub db_path: Seq<char>,
    pub poll_interval_ms: u64,
    pub batch_ledgers: u64,
    pub events_limit: u32,
    pub event_finality_lag: u64,
    pub catchup_sleep_ms: u64,
}

/// The settings of the server.
#[derive(Debug)]
pub struct ServerConfig {
    pub bind_addr: String,
    pub stellar_rpc_url: String,
    pub mixer_contract_id: String,
    pub start_ledger: Option<u64>,
    pub db_path: String,
    pub poll_interval_ms: u64,
    pub batch_ledgers: u64,
    pub events_limit: u32,
    pub event_finality_lag: u64,
    pub catchup_sleep_ms: u64,
}

impl View for ServerConfig {
    type V = ConfigView;

    open spec fn view(&self) -> ConfigView {
        ConfigView {
            bind_addr: self.bind_addr@,
            stellar_rpc_url: self.stellar_rpc_url@,
            mixer_contract_id: self.mixer_contract_id@,
            start_ledger: self.start_ledger,
            db_path: self.db_path@,
            poll_interval_ms: self.poll_interval_ms,
            batch_ledgers: self.batch_ledgers,
            events_limit: self.events_limit,
            event_finality_lag: self.event_finality_lag,
            catchup_sleep_ms: self.catchup_sleep_ms,
        }
    }
}

/// A text setting, or what it is by default.
pub open spec fn text_setting(value: Option<String>, default: Seq<char>) -> Seq<char> {
    match value {
        Some(s) => s@,
        None => default,
    }
}

/// The address to listen on, or what it is by default.
pub open spec fn bind_setting(value: Option<Result<String, String>>) -> Result<
    Seq<char>,
    ConfigFault,
> {
    match value {
        Some(Ok(addr)) => Ok(addr@),
        Some(Err(why)) => Err(ConfigFault::BindAddr(why@)),
        None => Ok("0.0.0.0:3000"@),
    }
}

/// A number setting up to `max`, or what it is by default.
pub open spec fn number_setting(
    value: Option<String>,
    setting: NumberSetting,
    max: nat,
    default: nat,
) -> Result<nat, ConfigFault> {
    match value {
        Some(s) => match parsed_number(s@, max) {
            Ok(n) => Ok(n),
            Err(why) => Err(ConfigFault::Number(setting, why)),
        },
        None => Ok(default),
    }
}

/// The ledger to start from. A blank setting is none.
pub open spec fn start_setting(value: Option<String>) -> Result<Option<u64>, ConfigFault> {
    match value {
        Some(s) => if trimmed(s@).len() == 0 {
            Ok(None)
        } else {
            match parsed_number(s@, u64::MAX as nat) {
                Ok(n) => Ok(Some(n as u64)),
                Err(why) => Err(ConfigFault::Number(NumberSetting::StartLedger, why)),
            }
        },
        None => Ok(None),
    }
}

/// The nearest number from 1 to 10000.
pub open spec fn limited(n: nat) -> nat {
    if n < 1 {
        1
    } else if n > 10000 {
        10000
    } else {
        n
    }
}

/// The settings that variables make up. The error is that of the first that is
/// wrong.
pub open spec fn configured(vars: EnvVars) -> Result<ConfigView, ConfigFault> {
    let bind = bind_setting(vars.bind_addr);
    let start = start_setting(vars.start_ledger);
    let poll = number_setting(
        vars.poll_interval_ms,
        NumberSetting::PollIntervalMs,
        u64::MAX as nat,
        2000,
    );
    let batch = number_setting(
        vars.batch_ledgers,
        NumberSetting::BatchLedgers,
        u64::MAX as nat,
        10000,
    );
    let limit = number_setting(
        vars.events_limit,
        NumberSetting::EventsLimit,
        u32::MAX as nat,
        10000,
    );
    let lag = number_setting(
        vars.event_finality_lag,
        NumberSetting::EventFinalityLag,
        u64::MAX as nat,
        8,
    );
    let sleep = number_setting(
        vars.catchup_sleep_ms,
        NumberSetting::CatchupSleepMs,
        u64::MAX as nat,
        300,
    );
    match (bind, vars.mixer_contract_id) {
        (Err(fault), _) => Err(fault),
        (_, Err(why)) => Err(ConfigFault::MissingContractId(why@)),
        (Ok(bind_addr), Ok(id)) => if trimmed(id@).len() == 0 {
            Err(ConfigFault::EmptyContractId)
        } else if start is Err {
            Err(start->Err_0)
        } else if poll is Err {
            Err(poll->Err_0)
        } else if batch is Err {
            Err(batch->Err_0)
        } else if limit is Err {
            Err(limit->Err_0)
        } else if lag is Err {
            Err(lag->Err_0)
        } else if sleep is Err {
            Err(sleep->Err_0)
        } else {
            Ok(
                ConfigView {
                    bind_addr,
                    stellar_rpc_url: text_setting(
                        vars.stellar_rpc_url,
                        "https://soroban-testnet.stellar.org"@,
                    ),
                    mixer_contract_id: id@,
                    start_ledger: start->Ok_0,
                    db_path: text_setting(vars.db_path, "./treepir-server-state.rocksdb"@),
                    poll_interval_ms: poll->Ok_0 as u64,
                    batch_ledgers: limited(batch->Ok_0) as u64,
                    events_limit: limited(limit->Ok_0) as u32,
                    event_finality_lag: lag->Ok_0 as u64,
                    catchup_sleep_ms: sleep->Ok_0 as u64,
                },
            )
        },
    }
}

/// The outcome of reading the settings.
pub open spec fn config_outcome(out: Result<ServerConfig, ConfigError>) -> Result<
    ConfigView,
    ConfigFault,
> {
    match out {
        Ok(config) => Ok(config@),
        Err(error) => Err(error@),
    }
}

/// A text setting, or what it is by default.
fn text_or(value: Option<String>, default: &str) -> (out: String)
    ensures
        out@ == text_setting(value, default@),
{
    match value {
        Some(s) => s,
        None => default.to_owned(),
    }
}

/// A number setting up to `max`, or what it is by default.
fn number_or(value: Option<String>, setting: NumberSetting, max: u64, default: u64) -> (out: Result<
    u64,
    ConfigError,
>)
    ensures
        match out {
            Ok(n) => number_setting(value, setting, max as nat, default as nat) == Ok::<
                nat,
                ConfigFault,
            >(n as nat),
            Err(error) => number_setting(value, setting, max as nat, default as nat) == Err::<
                nat,
                ConfigFault,
            >(error@),
        },
{
    match value {
        Some(s) => match parse_number(s.as_str(), max) {
            Ok(n) => Ok(n),
            Err(why) => Err(ConfigError::Number(setting, why)),
        },
        None => Ok(default),
    }
}

/// The nearest number from 1 to 10000.
fn limit_number(n: u64) -> (out: u64)
    ensures
        out == limited(n as nat),
{
    if n < 1 {
        1
    } else if n > 10000 {
        10000
    } else {
        n
    }
}

impl ServerConfig {
    /// Limits are from 1 to 10000.
    pub open spec fn wf(self) -> bool {
        &&& 1 <= self.batch_ledgers <= 10000
        &&& 1 <= self.events_limit <= 10000
    }

    /// Reads the settings from the environment variables.
    pub fn from_env(vars: EnvVars) -> (out: Result<ServerConfig, ConfigError>)
        ensures
            config_outcome(out) == configured(vars),
            out matches Ok(config) ==> config.wf(),
    {
        let bind_addr = match vars.bind_addr {
            Some(Ok(addr)) => addr,
            Some(Err(why)) => {
                return Err(ConfigError::BindAddr(why));
            },
            None => "0.0.0.0:3000".to_owned(),
        };
        let mixer_contract_id = match vars.mixer_contract_id {
            Ok(id) => id,
            Err(why) => {
                return Err(ConfigError::MissingContractId(why));
            },
        };
        if is_blank(mixer_contract_id.as_str()) {
            return Err(ConfigError::EmptyContractId);
        }
        let start_ledger = match vars.start_ledger {
            Some(s) => if is_blank(s.as_str()) {
                None
            } else {
                match parse_number(s.as_str(), u64::MAX) {
                    Ok(n) => Some(n),
                    Err(why) => {
                        return Err(ConfigError::Number(NumberSetting::StartLedger, why));
                    },
                }
            },
            None => None,
        };
        let poll_interval_ms = number_or(
            vars.poll_interval_ms,
            NumberSetting::PollIntervalMs,
            u64::MAX,
            2000,
        )?;
        let batch_ledgers = number_or(
            vars.batch_ledgers,
            NumberSetting::BatchLedgers,
            u64::MAX,
            10000,
        )?;
        let events_limit = number_or(
            vars.events_limit,
            NumberSetting::EventsLimit,
            u32::MAX as u64,
            10000,
        )?;
        let event_finality_lag = number_or(
            vars.event_finality_lag,
            NumberSetting::EventFinalityLag,
            u64::MAX,
            8,
        )?;
        let catchup_sleep_ms = number_or(
            vars.catchup_sleep_ms,
            NumberSetting::CatchupSleepMs,
            u64::MAX,
            300,
        )?;
        Ok(
            ServerConfig {
                bind_addr,
                stellar_rpc_url: text_or(
                    vars.stellar_rpc_url,
                    "https://soroban-testnet.stellar.org",
                ),
                mixer_contract_id,
                start_ledger,
                db_path: text_or(vars.db_path, "./treepir-server-state.rocksdb"),
                poll_interval_ms,
                batch_ledgers: limit_number(batch_ledgers),
                events_limit: limit_number(events_limit) as u32,
                event_finality_lag,
                catchup_sleep_ms,
            },
        )
    }
}

/// Whether `s` is nothing but white space.
fn is_blank(s: &str) -> (blank: bool)
    ensures
        blank == (trimmed(s@).len() == 0),
{
    let text = trim(s);
    text.unicode_len() == 0
}

} // verus!
