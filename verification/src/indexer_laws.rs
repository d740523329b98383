//! Which ledgers the indexer reads, and how long it waits.
use vstd::prelude::*;
use vstd::string::*;

use crate::config::ServerConfig;
use crate::fetch::{
    EventPager, GetLedgersRequest, LedgerPager, PageStart, PageStartView, RangeError,
};
use crate::indexer::{
    catching_up_reads_each_ledger_once, contract_id_bytes, is_probably_transient_rpc_error, ranges,
    tiles, transient_rpc_backoff, transient_words, CatchUp, NextStep, RangeDone,
    StellarMixerIndexer,
};
use crate::text::{lower_char, lower_text, occurs_at, occurs_in};

verus! {

/// The ledgers from `from` up to, not including, `to` are read in ranges.
pub open spec fn reads(catch_up: CatchUp, from: int, to: int, batch: u64) -> bool {
    tiles(ranges(catch_up@), from, to, batch)
}

/// When the server starts, it reads each ledger after the last indexed one exactly once
/// and in order, up to the latest but for the last few, which may not be final yet, in
/// ranges of at most the batch size; nothing where there is none.
pub proof fn startup_reads_all_but_the_last_ledgers(
    config: ServerConfig,
    indexer: StellarMixerIndexer,
    last_indexed: u64,
    latest: u64,
    catch_up: CatchUp,
    range: Option<(u64, u64)>,
)
    requires
        call_ensures(StellarMixerIndexer::new, (&config,), Some(indexer)),
        call_ensures(StellarMixerIndexer::catch_up_once, (&indexer, last_indexed, latest), catch_up),
        call_ensures(CatchUp::next_range, (&catch_up,), range),
        config.batch_ledgers >= 1,
        latest < u64::MAX,
    ensures
        ({
            let last = latest - config.event_finality_lag;
            &&& last_indexed <= last ==> reads(
                catch_up,
                last_indexed + 1,
                last + 1,
                config.batch_ledgers,
            )
            &&& last_indexed >= last ==> range is None
        }),
{
    let last = latest - config.event_finality_lag;
    if last_indexed <= last {
        catching_up_reads_each_ledger_once(last_indexed, last as u64, config.batch_ledgers);
    }
}

/// While it runs, the server reads each ledger after the last indexed one exactly once
/// and in order, up to the latest, in ranges of at most the batch size; nothing where
/// there is none.
pub proof fn running_reads_all_ledgers(
    config: ServerConfig,
    indexer: StellarMixerIndexer,
    last_indexed: u64,
    latest: u64,
    catch_up: CatchUp,
    range: Option<(u64, u64)>,
)
    requires
        call_ensures(StellarMixerIndexer::new, (&config,), Some(indexer)),
        call_ensures(
            StellarMixerIndexer::catch_up_live_once,
            (&indexer, last_indexed, latest),
            catch_up,
        ),
        call_ensures(CatchUp::next_range, (&catch_up,), range),
        config.batch_ledgers >= 1,
        latest < u64::MAX,
    ensures
        last_indexed <= latest ==> reads(
            catch_up,
            last_indexed + 1,
            latest + 1,
            config.batch_ledgers,
        ),
        last_indexed >= latest ==> range is None,
{
    if last_indexed <= latest {
        catching_up_reads_each_ledger_once(last_indexed, latest, config.batch_ledgers);
    }
}

/// After a range was indexed, the last indexed ledger is the last of the range, and the
/// next range starts where it ended. There is a wait only between ranges, and only where
/// one is set.
pub proof fn ranges_follow_each_other(
    catch_up: &mut CatchUp,
    catchup_sleep_ms: u64,
    range: (u64, u64),
    done: RangeDone,
    next: Option<(u64, u64)>,
)
    requires
        call_ensures(CatchUp::next_range, (&*old(catch_up),), Some(range)),
        call_ensures(CatchUp::range_done, (catch_up, catchup_sleep_ms), done),
        call_ensures(CatchUp::next_range, (&*final(catch_up),), next),
    ensures
        range.0 > 0 || range.1 > 0 ==> done.last_indexed_ledger == range.1 - 1,
        next matches Some(following) ==> following.0 == range.1,
        done.sleep <==> next is Some && catchup_sleep_ms > 0,
{
}

/// The indexer is that of the configured contract, and asks for as many events and
/// ledgers at once as are configured, ledgers from 1 to 200.
pub proof fn indexer_is_as_configured(
    config: ServerConfig,
    indexer: StellarMixerIndexer,
    start_ledger: u64,
    end_ledger: u64,
    pager: LedgerPager,
    request: GetLedgersRequest,
)
    requires
        call_ensures(StellarMixerIndexer::new, (&config,), Some(indexer)),
        call_ensures(
            StellarMixerIndexer::events_from_ledger_close_meta_range,
            (&indexer, start_ledger, end_ledger),
            Some(pager),
        ),
        call_ensures(LedgerPager::next_page, (&pager,), Some(request)),
    ensures
        contract_id_bytes(config.mixer_contract_id@) is Some,
        pager@.contract == contract_id_bytes(config.mixer_contract_id@)->0,
        start_ledger < end_ledger,
        request.start_ledger == start_ledger,
        request.cursor is None,
        1 <= request.limit <= 200,
        1 <= config.events_limit <= 200 ==> request.limit == config.events_limit,
        config.events_limit > 200 ==> request.limit == 200,
        forall|limit: usize| #[trigger]
            call_ensures(StellarMixerIndexer::events_limit, (&indexer,), limit) ==> limit
                == config.events_limit,
        forall|sleep: u64| #[trigger]
            call_ensures(StellarMixerIndexer::catchup_sleep_ms, (&indexer,), sleep) ==> sleep
                == config.catchup_sleep_ms,
{
}

/// An indexer is made if and only if the configured contract id is one.
pub proof fn indexer_needs_a_contract_id(config: ServerConfig, out: Option<StellarMixerIndexer>)
    requires
        call_ensures(StellarMixerIndexer::new, (&config,), out),
    ensures
        out is Some <==> contract_id_bytes(config.mixer_contract_id@) is Some,
        out matches Some(indexer) ==> forall|id: &str| #[trigger]
            call_ensures(StellarMixerIndexer::contract_id, (&indexer,), id) ==> id@
                == config.mixer_contract_id@,
{
}

/// A range of reported events is asked for from its first to its last ledger; nothing is
/// asked for where it is empty.
pub proof fn ranges_of_events_are_asked_for(
    indexer: StellarMixerIndexer,
    start_ledger: u64,
    end_ledger: u64,
    out: Result<Option<EventPager>, RangeError>,
)
    requires
        call_ensures(
            StellarMixerIndexer::events_for_range,
            (&indexer, start_ledger, end_ledger),
            out,
        ),
    ensures
        start_ledger >= end_ledger ==> (out matches Ok(pager) && pager is None),
        start_ledger < end_ledger && end_ledger - 1 <= u32::MAX ==> (out matches Ok(Some(pager)) && (
        forall|next: Option<PageStart>| #[trigger]
            call_ensures(EventPager::next_page, (&pager,), next) ==> (next matches Some(start)
                && start@ == (PageStartView::Range {
                start: start_ledger as u32,
                end_inclusive: (end_ledger - 1) as u32,
            })))),
        start_ledger < end_ledger && end_ledger - 1 > u32::MAX ==> out is Err,
{
}

/// What failures that pass are known by.
pub open spec fn passing_words() -> Seq<&'static str> {
    seq![
        "sendrequest",
        "error sending request",
        "request failed",
        "connection",
        "unexpected eof",
        "broken pipe",
        "timeout",
        "timed out",
        "dns",
        "tls",
        "hyper",
        "http error",
        "429",
        "502",
        "503",
        "504",
    ]
}

/// A text says a word, in small letters or capitals.
pub open spec fn says(text: Seq<char>, word: Seq<char>) -> bool {
    exists|i: int|
        0 <= i && i + word.len() <= text.len() && #[trigger] lower_text(
            text.subrange(i, i + word.len()),
        ) == word
}

/// An error passes if and only if its text says one of the words that such failures are
/// known by, in small letters or capitals.
pub proof fn failures_that_pass_are_known_by_words(error: &str, transient: bool)
    requires
        call_ensures(is_probably_transient_rpc_error, (error,), transient),
    ensures
        transient <==> exists|k: int|
            0 <= k < passing_words().len() && says(error@, (#[trigger] passing_words()[k])@),
{
    let text = error@;
    let lower = lower_text(text);
    let (all, few) = (transient_words(), passing_words());
    assert forall|word: Seq<char>| #[trigger] occurs_in(word, lower) == says(text, word) by {
        lemma_says(text, word);
    }
    if transient {
        let k = choose|k: int| 0 <= k < all.len() && occurs_in((#[trigger] all[k])@, lower);
        assert(says(text, all[k]@));
        lemma_words(k);
        if k == 4 || k == 5 {
            lemma_shorter_word(text, all[k]@, "connection"@);
            assert(says(text, few[3]@));
        } else {
            let j = if k < 4 {
                k
            } else {
                k - 2
            };
            assert(few[j]@ == all[k]@);
            assert(says(text, few[j]@));
        }
    }
    if exists|k: int| 0 <= k < few.len() && says(text, (#[trigger] few[k])@) {
        let k = choose|k: int| 0 <= k < few.len() && says(text, (#[trigger] few[k])@);
        let j = if k < 4 {
            k
        } else {
            k + 2
        };
        assert(all[j]@ == few[k]@);
        assert(occurs_in(all[j]@, lower));
    }
}

/// The words that contain another of the words.
proof fn lemma_words(k: int)
    ensures
        k == 4 || k == 5 ==> "connection"@.len() <= transient_words()[k]@.len()
            && transient_words()[k]@.subrange(0, "connection"@.len() as int) == "connection"@,
{
    reveal_strlit("connection");
    reveal_strlit("connection reset");
    reveal_strlit("connection closed");
    assert("connection reset"@.subrange(0, 10) =~= "connection"@);
    assert("connection closed"@.subrange(0, 10) =~= "connection"@);
}

/// A text that says a word says what the word starts with.
proof fn lemma_shorter_word(text: Seq<char>, word: Seq<char>, front: Seq<char>)
    requires
        says(text, word),
        front.len() <= word.len(),
        word.subrange(0, front.len() as int) == front,
    ensures
        says(text, front),
{
    let i = choose|i: int|
        0 <= i && i + word.len() <= text.len() && #[trigger] lower_text(
            text.subrange(i, i + word.len()),
        ) == word;
    let (long, short) = (text.subrange(i, i + word.len()), text.subrange(i, i + front.len()));
    assert(lower_text(short) =~= lower_text(long).subrange(0, front.len() as int));
}

proof fn lemma_says(text: Seq<char>, word: Seq<char>)
    ensures
        occurs_in(word, lower_text(text)) == says(text, word),
{
    let lower = lower_text(text);
    if occurs_in(word, lower) {
        let i = choose|i: int| #[trigger] occurs_at(word, lower, i);
        assert(lower_text(text.subrange(i, i + word.len())) =~= lower.subrange(i, i + word.len()));
    }
    if says(text, word) {
        let i = choose|i: int|
            0 <= i && i + word.len() <= text.len() && #[trigger] lower_text(
                text.subrange(i, i + word.len()),
            ) == word;
        assert(lower.subrange(i, i + word.len()) =~= lower_text(text.subrange(i, i + word.len())));
        assert(occurs_at(word, lower, i));
    }
}

/// Only ASCII capitals are made small.
pub proof fn only_capitals_are_made_small(c: char)
    ensures
        'A' <= c <= 'Z' ==> lower_char(c) as int == c as int + 32,
        !('A' <= c <= 'Z') ==> lower_char(c) == c,
{
}

/// Two to the power of `n`.
pub open spec fn two_to(n: nat) -> nat
    decreases n,
{
    if n == 0 {
        1
    } else {
        2 * two_to((n - 1) as nat)
    }
}

proof fn lemma_two_to(n: nat)
    ensures
        two_to(n) >= 1,
        n >= 5 ==> two_to(n) >= 32,
    decreases n,
{
    reveal_with_fuel(two_to, 6);
    if n > 5 {
        lemma_two_to((n - 1) as nat);
    } else if n > 0 {
        lemma_two_to((n - 1) as nat);
    }
}

/// The wait doubles with each failure in a row, from 2 seconds on, up to 30.
pub proof fn wait_doubles_up_to_thirty_seconds(failures: u32, secs: u64)
    requires
        call_ensures(transient_rpc_backoff, (failures,), secs),
        failures >= 1,
    ensures
        secs == if two_to(failures as nat) < 30 {
            two_to(failures as nat)
        } else {
            30
        },
{
    lemma_two_to(failures as nat);
    reveal_with_fuel(two_to, 6);
}

/// After an attempt that did not fail comes another after the configured interval; after
/// one that failed for now, another after the wait for that many failures in a row; after
/// any other failure none.
pub proof fn attempts_follow_each_other(
    config: ServerConfig,
    indexer: StellarMixerIndexer,
    failures: u32,
    error: Option<&str>,
    transient: bool,
    secs: u64,
    out: NextStep,
)
    requires
        call_ensures(StellarMixerIndexer::new, (&config,), Some(indexer)),
        call_ensures(StellarMixerIndexer::after_attempt, (&indexer, failures, error), out),
        error matches Some(text) ==> call_ensures(
            is_probably_transient_rpc_error,
            (text,),
            transient,
        ),
        call_ensures(
            transient_rpc_backoff,
            (if failures < u32::MAX {
                (failures + 1) as u32
            } else {
                u32::MAX
            },),
            secs,
        ),
    ensures
        error is None ==> out == (NextStep::Poll { failures: 0, sleep_ms: config.poll_interval_ms }),
        error is Some && transient ==> out == (NextStep::Retry {
            failures: if failures < u32::MAX {
                (failures + 1) as u32
            } else {
                u32::MAX
            },
            backoff_secs: secs,
        }),
        error is Some && !transient ==> out is Stop,
{
}

} // verus!
