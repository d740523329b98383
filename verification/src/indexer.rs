//! The decisions of the indexer: which ledgers are read next, and what follows a
//! failure.
use vstd::prelude::*;
use vstd::string::*;

use crate::config::{ConfigView, ServerConfig};
use crate::encoding::TreeHash;
use crate::fetch::{
    event_pager, pager_outcome, EventPager, LedgerPager, LedgerPagerView, RangeError,
};
use crate::text::{chars_of, contains_chars, lower_chars, lower_text, occurs_in};

verus! {

/// The 32 bytes of a contract id; none where the text is no contract id.
pub uninterp spec fn contract_id_bytes(text: Seq<char>) -> Option<Seq<u8>>;

/// Bytes that may be there.
pub open spec fn bytes_view(hash: Option<TreeHash>) -> Option<Seq<u8>> {
    match hash {
        Some(bytes) => Some(bytes@),
        None => None,
    }
}

/// `parse` of `stellar_strkey::Contract`: what it gives for a text is the same each
/// time.
#[verifier::external_body]
fn parse_contract_id(text: &str) -> (out: Option<TreeHash>)
    ensures
        bytes_view(out) == contract_id_bytes(text@),
{
    text.parse::<stellar_strkey::Contract>().ok().map(|contract| contract.0)
}

/// The indexer in the abstract.
pub struct IndexerView {
    pub contract_id: Seq<char>,
    pub contract: Seq<u8>,
    pub events_limit: usize,
    pub ledgers_limit: usize,
    pub batch_ledgers: u64,
    pub event_finality_lag: u64,
    pub poll_interval_ms: u64,
    pub catchup_sleep_ms: u64,
}

/// How many ledgers are asked for at once: as many as events, up to 200.
pub open spec fn ledgers_limit(events_limit: u32) -> usize {
    if events_limit < 1 {
        1
    } else if events_limit > 200 {
        200
    } else {
        events_limit as usize
    }
}

/// The indexer of a contract.
pub open spec fn indexer(config: ConfigView, contract: Seq<u8>) -> IndexerView {
    IndexerView {
        contract_id: config.mixer_contract_id,
        contract,
        events_limit: config.events_limit as usize,
        ledgers_limit: ledgers_limit(config.events_limit),
        batch_ledgers: config.batch_ledgers,
        event_finality_lag: config.event_finality_lag,
        poll_interval_ms: config.poll_interval_ms,
        catchup_sleep_ms: config.catchup_sleep_ms,
    }
}

/// The indexer of the events of a mixer contract.
#[derive(Debug)]
pub struct StellarMixerIndexer {
    contract_id: String,
    contract: TreeHash,
    events_limit: usize,
    ledgers_limit: usize,
    batch_ledgers: u64,
    event_finality_lag: u64,
    poll_interval_ms: u64,
    catchup_sleep_ms: u64,
}

impl View for StellarMixerIndexer {
    type V = IndexerView;

    closed spec fn view(&self) -> IndexerView {
        IndexerView {
            contract_id: self.contract_id@,
            contract: self.contract@,
            events_limit: self.events_limit,
            ledgers_limit: self.ledgers_limit,
            batch_ledgers: self.batch_ledgers,
            event_finality_lag: self.event_finality_lag,
            poll_interval_ms: self.poll_interval_ms,
            catchup_sleep_ms: self.catchup_sleep_ms,
        }
    }
}

/// What follows an attempt to catch up.
#[derive(Debug, Clone, Copy, PartialEq, Eq, Structural)]
pub enum NextStep {
    /// Another attempt after this many milliseconds; none has failed since the last
    /// that did not.
    Poll { failures: u32, sleep_ms: u64 },
    /// Another attempt after this many seconds; this many have failed in a row.
    Retry { failures: u32, backoff_secs: u64 },
    /// No other attempt.
    Stop,
}

/// What failures of the RPC service that pass are recognised by.
pub open spec fn transient_words() -> Seq<&'static str> {
    seq![
        "sendrequest",
        "error sending request",
        "request failed",
        "connection",
        "connection reset",
        "connection closed",
        "unexpected eof",
        "broken pipe",
        "timeout",
        "timed out",
        "dns",
        "tls",
        "hyper",
        "http error",
        "429",
        "502",
        "503",
        "504",
    ]
}

/// One of `words` occurs in `text`.
pub open spec fn has_word(text: Seq<char>, words: Seq<&str>) -> bool {
    exists|i: int| 0 <= i < words.len() && occurs_in((#[trigger] words[i])@, text)
}

/// The error is one that passes, as far as its text tells. Capitals do not matter.
pub open spec fn is_transient(error: Seq<char>) -> bool {
    has_word(lower_text(error), transient_words())
}

/// How many seconds to wait after this many failures in a row.
pub open spec fn backoff_secs(failures: u32) -> u64 {
    if failures <= 1 {
        2
    } else if failures == 2 {
        4
    } else if failures == 3 {
        8
    } else if failures == 4 {
        16
    } else {
        30
    }
}

/// What follows an attempt after `failures` failures in a row, given the error of
/// the attempt, if any.
pub open spec fn after_attempt(failures: u32, error: Option<Seq<char>>, poll_interval_ms: u64) -> NextStep {
    match error {
        None => NextStep::Poll { failures: 0, sleep_ms: poll_interval_ms },
        Some(text) => if is_transient(text) {
            let failures = if failures == u32::MAX {
                failures
            } else {
                (failures + 1) as u32
            };
            NextStep::Retry { failures, backoff_secs: backoff_secs(failures) }
        } else {
            NextStep::Stop
        },
    }
}

/// Whether an error of the RPC service is one that passes.
pub fn is_probably_transient_rpc_error(error: &str) -> (transient: bool)
    ensures
        transient == is_transient(error@),
{
    let message = lower_chars(error);
    let words = [
        "sendrequest",
        "error sending request",
        "request failed",
        "connection",
        "connection reset",
        "connection closed",
        "unexpected eof",
        "broken pipe",
        "timeout",
        "timed out",
        "dns",
        "tls",
        "hyper",
        "http error",
        "429",
        "502",
        "503",
        "504",
    ];
    assert(words@ =~= transient_words());
    let mut i: usize = 0;
    while i < 18
        invariant
            words@ == transient_words(),
            words@.len() == 18,
            i <= 18,
            message@ == lower_text(error@),
            forall|k: int| 0 <= k < i ==> !occurs_in((#[trigger] words@[k])@, message@),
        decreases 18 - i,
    {
        let word = chars_of(words[i]);
        if contains_chars(&message, &word) {
            assert(occurs_in(transient_words()[i as int]@, message@));
            return true;
        }
        i = i + 1;
    }
    false
}

/// How many seconds to wait after this many failures in a row.
pub fn transient_rpc_backoff(failures: u32) -> (secs: u64)
    ensures
        secs == backoff_secs(failures),
{
    match failures {
        0 | 1 => 2,
        2 => 4,
        3 => 8,
        4 => 16,
        _ => 30,
    }
}

/// The next number; the greatest is its own.
pub open spec fn next_number(n: u64) -> u64 {
    if n == u64::MAX {
        u64::MAX
    } else {
        (n + 1) as u64
    }
}

/// The end of the range of ledgers that is read next.
pub open spec fn range_end(from: u64, latest: u64, batch: u64) -> u64 {
    let end = if from + batch > u64::MAX {
        u64::MAX
    } else {
        (from + batch) as u64
    };
    if end < next_number(latest) {
        end
    } else {
        next_number(latest)
    }
}

/// Catching up, in the abstract.
pub struct CatchUpView {
    /// The first ledger that is not indexed.
    pub from: u64,
    /// The last ledger that is to be indexed.
    pub latest: u64,
    pub batch: u64,
}

impl CatchUpView {
    /// The next range of ledgers, without its end.
    pub open spec fn range(self) -> Option<(u64, u64)> {
        if self.from <= self.latest {
            Some((self.from, range_end(self.from, self.latest, self.batch)))
        } else {
            None
        }
    }

    /// Catching up after the next range.
    pub open spec fn after_range(self) -> CatchUpView {
        CatchUpView { from: range_end(self.from, self.latest, self.batch), ..self }
    }
}

/// Catching up with the ledgers up to one.
#[derive(Debug)]
pub struct CatchUp {
    from: u64,
    latest: u64,
    batch: u64,
}

impl View for CatchUp {
    type V = CatchUpView;

    closed spec fn view(&self) -> CatchUpView {
        CatchUpView { from: self.from, latest: self.latest, batch: self.batch }
    }
}

/// What follows a range of ledgers that was indexed.
#[derive(Debug, Clone, Copy, PartialEq, Eq, Structural)]
pub struct RangeDone {
    /// The last ledger that is indexed.
    pub last_indexed_ledger: u64,
    /// Whether to wait before the next range.
    pub sleep: bool,
}

impl CatchUp {
    /// Starts to catch up from the ledger after the last indexed one.
    pub fn catch_up_to(last_indexed_ledger: u64, latest_ledger: u64, batch_ledgers: u64) -> (out:
        CatchUp)
        ensures
            out@ == (CatchUpView {
                from: next_number(last_indexed_ledger),
                latest: latest_ledger,
                batch: batch_ledgers,
            }),
    {
        CatchUp {
            from: last_indexed_ledger.saturating_add(1),
            latest: latest_ledger,
            batch: batch_ledgers,
        }
    }

    /// The next range of ledgers, without its end; none when all are indexed.
    pub fn next_range(&self) -> (out: Option<(u64, u64)>)
        ensures
            out == self@.range(),
    {
        if self.from <= self.latest {
            Some((self.from, self.end()))
        } else {
            None
        }
    }

    /// The end of the next range.
    fn end(&self) -> (out: u64)
        ensures
            out == range_end(self@.from, self@.latest, self@.batch),
    {
        let end = self.from.saturating_add(self.batch);
        let stop = self.latest.saturating_add(1);
        if end < stop {
            end
        } else {
            stop
        }
    }

    /// Goes past the next range, which was indexed.
    pub fn range_done(&mut self, catchup_sleep_ms: u64) -> (out: RangeDone)
        requires
            old(self)@.range() is Some,
        ensures
            final(self)@ == old(self)@.after_range(),
            out.last_indexed_ledger == (if final(self)@.from == 0 {
                0
            } else {
                final(self)@.from - 1
            }),
            out.sleep == (final(self)@.range() is Some && catchup_sleep_ms > 0),
    {
        self.from = self.end();
        RangeDone {
            last_indexed_ledger: self.from.saturating_sub(1),
            sleep: self.from <= self.latest && catchup_sleep_ms > 0,
        }
    }
}

impl StellarMixerIndexer {
    /// The indexer of the contract whose id holds these bytes.
    pub fn with_contract(config: &ServerConfig, contract: TreeHash) -> (out: StellarMixerIndexer)
        ensures
            out@ == indexer(config@, contract@),
    {
        let ledgers_limit: usize = if config.events_limit < 1 {
            1
        } else if config.events_limit > 200 {
            200
        } else {
            config.events_limit as usize
        };
        StellarMixerIndexer {
            contract_id: config.mixer_contract_id.as_str().to_owned(),
            contract,
            events_limit: config.events_limit as usize,
            ledgers_limit,
            batch_ledgers: config.batch_ledgers,
            event_finality_lag: config.event_finality_lag,
            poll_interval_ms: config.poll_interval_ms,
            catchup_sleep_ms: config.catchup_sleep_ms,
        }
    }

    /// The indexer of the configured contract; none where its id is no contract
    /// id.
    pub fn new(config: &ServerConfig) -> (out: Option<StellarMixerIndexer>)
        ensures
            match out {
                Some(made) => contract_id_bytes(config.mixer_contract_id@) == Some(made@.contract)
                    && made@ == indexer(config@, made@.contract),
                None => contract_id_bytes(config.mixer_contract_id@) is None,
            },
    {
        match parse_contract_id(config.mixer_contract_id.as_str()) {
            Some(contract) => Some(StellarMixerIndexer::with_contract(config, contract)),
            None => None,
        }
    }

    /// The id of the contract.
    pub fn contract_id(&self) -> (out: &str)
        ensures
            out@ == self@.contract_id,
    {
        self.contract_id.as_str()
    }

    /// How many events are asked for at once.
    pub fn events_limit(&self) -> (out: usize)
        ensures
            out == self@.events_limit,
    {
        self.events_limit
    }

    /// How many milliseconds to wait between ranges of ledgers.
    pub fn catchup_sleep_ms(&self) -> (out: u64)
        ensures
            out == self@.catchup_sleep_ms,
    {
        self.catchup_sleep_ms
    }

    /// Starts to catch up, when the server starts, with the ledgers that are final:
    /// all but the last few.
    pub fn catch_up_once(&self, last_indexed_ledger: u64, latest: u64) -> (out: CatchUp)
        ensures
            out@ == (CatchUpView {
                from: next_number(last_indexed_ledger),
                latest: if latest < self@.event_finality_lag {
                    0
                } else {
                    (latest - self@.event_finality_lag) as u64
                },
                batch: self@.batch_ledgers,
            }),
    {
        CatchUp::catch_up_to(
            last_indexed_ledger,
            latest.saturating_sub(self.event_finality_lag),
            self.batch_ledgers,
        )
    }

    /// Starts to catch up, while the server runs, with all ledgers.
    pub fn catch_up_live_once(&self, last_indexed_ledger: u64, latest: u64) -> (out: CatchUp)
        ensures
            out@ == (CatchUpView {
                from: next_number(last_indexed_ledger),
                latest,
                batch: self@.batch_ledgers,
            }),
    {
        CatchUp::catch_up_to(last_indexed_ledger, latest, self.batch_ledgers)
    }

    /// What follows an attempt to catch up after `failures` failures in a row,
    /// given the error of the attempt, if any.
    pub fn after_attempt(&self, failures: u32, error: Option<&str>) -> (out: NextStep)
        ensures
            out == after_attempt(
                failures,
                match error {
                    Some(text) => Some(text@),
                    None => None,
                },
                self@.poll_interval_ms,
            ),
    {
        match error {
            None => NextStep::Poll { failures: 0, sleep_ms: self.poll_interval_ms },
            Some(text) => if is_probably_transient_rpc_error(text) {
                let failures = failures.saturating_add(1);
                NextStep::Retry { failures, backoff_secs: transient_rpc_backoff(failures) }
            } else {
                NextStep::Stop
            },
        }
    }

    /// Starts to fetch the events of a range of ledgers that the RPC service
    /// reports.
    pub fn events_for_range(&self, start_ledger: u64, end_ledger: u64) -> (out: Result<
        Option<EventPager>,
        RangeError,
    >)
        ensures
            pager_outcome(out) == event_pager(start_ledger, end_ledger, self@.events_limit),
    {
        EventPager::events_for_range(start_ledger, end_ledger, self.events_limit)
    }

    /// Starts to read the events of a range of ledgers from their metadata.
    pub fn events_from_ledger_close_meta_range(&self, start_ledger: u64, end_ledger: u64) -> (out:
        Option<LedgerPager>)
        ensures
            match out {
                Some(pager) => start_ledger < end_ledger && pager@ == (LedgerPagerView {
                    start_ledger,
                    end_ledger,
                    limit: self@.ledgers_limit,
                    contract: self@.contract,
                    events: Seq::empty(),
                    cursor: None,
                    done: false,
                }),
                None => start_ledger >= end_ledger,
            },
    {
        LedgerPager::events_from_ledger_close_meta_range(
            start_ledger,
            end_ledger,
            self.ledgers_limit,
            self.contract,
        )
    }
}

/// The ranges of ledgers that are read, one after the other.
pub open spec fn ranges(state: CatchUpView) -> Seq<(u64, u64)>
    decreases state.latest + 1 - state.from,
    when state.batch >= 1 && state.latest < u64::MAX
{
    match state.range() {
        Some(range) => seq![range] + ranges(state.after_range()),
        None => Seq::empty(),
    }
}

/// The ranges start at `from`, each where the one before it ends, and end at `to`.
/// None is empty or longer than `batch`.
pub open spec fn tiles(list: Seq<(u64, u64)>, from: int, to: int, batch: u64) -> bool {
    &&& list.len() == 0 ==> from == to
    &&& list.len() > 0 ==> list[0].0 == from && list.last().1 == to
    &&& forall|k: int| 0 <= k < list.len() - 1 ==> (#[trigger] list[k]).1 == list[k + 1].0
    &&& forall|k: int|
        0 <= k < list.len() ==> (#[trigger] list[k]).0 < list[k].1 <= list[k].0 + batch
}

proof fn lemma_ranges_tile(state: CatchUpView)
    requires
        state.batch >= 1,
        state.latest < u64::MAX,
        state.from <= state.latest + 1,
    ensures
        tiles(ranges(state), state.from as int, state.latest + 1, state.batch),
    decreases state.latest + 1 - state.from,
{
    if state.from <= state.latest {
        let after = state.after_range();
        lemma_ranges_tile(after);
        let rest = ranges(after);
        let list = ranges(state);
        assert(list == seq![(state.from, after.from)] + rest);
        assert forall|k: int| 0 <= k < list.len() - 1 implies (#[trigger] list[k]).1 == list[k
            + 1].0 by {
            assert(list[k + 1] == rest[k]);
            if k > 0 {
                assert(list[k] == rest[k - 1]);
            }
        }
        assert forall|k: int| 0 <= k < list.len() implies (#[trigger] list[k]).0 < list[k].1
            <= list[k].0 + state.batch by {
            if k > 0 {
                assert(list[k] == rest[k - 1]);
            }
        }
        if rest.len() > 0 {
            assert(list.last() == rest.last());
        }
    }
}

/// Catching up reads each ledger after the last indexed one, up to the latest,
/// exactly once and in order, in ranges of at most the batch size. When it is
/// done, the latest ledger is the last indexed one.
pub proof fn catching_up_reads_each_ledger_once(last_indexed: u64, latest: u64, batch: u64)
    requires
        batch >= 1,
        last_indexed <= latest < u64::MAX,
    ensures
        tiles(
            ranges(CatchUpView { from: next_number(last_indexed), latest, batch }),
            last_indexed + 1,
            latest + 1,
            batch,
        ),
{
    lemma_ranges_tile(CatchUpView { from: next_number(last_indexed), latest, batch });
}

/// How many attempts at the end failed, given the error of each attempt, if any.
pub open spec fn failures_in_a_row(errors: Seq<Option<Seq<char>>>) -> nat
    decreases errors.len(),
{
    if errors.len() == 0 || errors.last() is None {
        0
    } else {
        1 + failures_in_a_row(errors.drop_last())
    }
}

/// The count that is carried from attempt to attempt; none once an attempt was the
/// last.
pub open spec fn count_carried(errors: Seq<Option<Seq<char>>>, poll_interval_ms: u64) -> Option<u32>
    decreases errors.len(),
{
    if errors.len() == 0 {
        Some(0)
    } else {
        match count_carried(errors.drop_last(), poll_interval_ms) {
            Some(count) => match after_attempt(count, errors.last(), poll_interval_ms) {
                NextStep::Poll { failures, .. } => Some(failures),
                NextStep::Retry { failures, .. } => Some(failures),
                NextStep::Stop => None,
            },
            None => None,
        }
    }
}

/// The error of an attempt is one that does not pass.
pub open spec fn is_lasting(error: Option<Seq<char>>) -> bool {
    error matches Some(text) && !is_transient(text)
}

/// Attempts go on until one fails for good, and only that one ends them. The count
/// that is carried is that of the failures in a row, up to what 32 bits hold: it
/// starts anew after an attempt that does not fail.
pub proof fn attempts_go_on_until_a_lasting_error(
    errors: Seq<Option<Seq<char>>>,
    poll_interval_ms: u64,
)
    ensures
        match count_carried(errors, poll_interval_ms) {
            Some(count) => {
                &&& forall|i: int| 0 <= i < errors.len() ==> !is_lasting(#[trigger] errors[i])
                &&& count == if failures_in_a_row(errors) < u32::MAX {
                    failures_in_a_row(errors)
                } else {
                    u32::MAX as nat
                }
            },
            None => exists|i: int| 0 <= i < errors.len() && is_lasting(#[trigger] errors[i]),
        },
    decreases errors.len(),
{
    if errors.len() > 0 {
        let front = errors.drop_last();
        attempts_go_on_until_a_lasting_error(front, poll_interval_ms);
        assert forall|i: int| 0 <= i < front.len() implies errors[i] == #[trigger] front[i] by {}
        match count_carried(front, poll_interval_ms) {
            Some(_) => {
                assert forall|i: int| 0 <= i < errors.len() - 1 implies !is_lasting(
                    #[trigger] errors[i],
                ) by {
                    assert(!is_lasting(front[i]));
                }
                assert(is_lasting(errors[errors.len() - 1]) == is_lasting(errors.last()));
            },
            None => {
                let i = choose|i: int| 0 <= i < front.len() && is_lasting(#[trigger] front[i]);
                assert(is_lasting(errors[i]));
            },
        }
    }
}

/// The wait after failures never grows shorter with another failure, and is from 2
/// to 30 seconds.
pub proof fn backoff_grows(failures: u32, more: u32)
    requires
        failures <= more,
    ensures
        2 <= backoff_secs(failures) <= backoff_secs(more) <= 30,
{
}

} // verus!
