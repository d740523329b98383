//! Fetching the events of a range of ledgers, page by page.
use vstd::prelude::*;
use vstd::string::*;

use crate::encoding::TreeHash;
use crate::events::{FieldError, FieldFault};
use crate::ledger_events::{
    collect_ledger, collect_mixer_events_from_ledger_close_meta, going, ledger_events_are_appended,
    local_views, LocalEvent, LocalLedgerEvent,
};
use crate::ledger_meta::{decoded_ledger, LedgerEvents};
use crate::order::{
    all_positions, ordered, picked, place_before, places, reversed, sort_events,
    sorting_is_a_stable_reordering, Place,
};
use crate::rpc_events::RpcEvent;
use crate::text::{decimal, decimal_text, signed_decimal, signed_text};

verus! {

/// Why a range of ledgers cannot be asked for.
#[derive(Debug, Clone, Copy, PartialEq, Eq, Structural)]
pub enum RangeError {
    StartTooLarge,
    EndTooLarge,
}

impl RangeError {
    /// The error in words.
    pub open spec fn text(self) -> Seq<char> {
        match self {
            RangeError::StartTooLarge =>
                "start ledger does not fit u32: out of range integral type conversion attempted"@,
            RangeError::EndTooLarge =>
                "end ledger does not fit u32: out of range integral type conversion attempted"@,
        }
    }

    pub fn message(self) -> (out: &'static str)
        ensures
            out@ == self.text(),
    {
        match self {
            RangeError::StartTooLarge =>
                "start ledger does not fit u32: out of range integral type conversion attempted",
            RangeError::EndTooLarge =>
                "end ledger does not fit u32: out of range integral type conversion attempted",
        }
    }
}

/// Where a page of events starts, in the abstract.
pub enum PageStartView {
    Range { start: u32, end_inclusive: u32 },
    Cursor(Seq<char>),
}

/// Where a page of events starts.
#[derive(Debug)]
pub enum PageStart {
    /// At the first of these ledgers.
    Range { start: u32, end_inclusive: u32 },
    /// Where another page ended.
    Cursor(String),
}

impl View for PageStart {
    type V = PageStartView;

    open spec fn view(&self) -> PageStartView {
        match *self {
            PageStart::Range { start, end_inclusive } => PageStartView::Range {
                start,
                end_inclusive,
            },
            PageStart::Cursor(cursor) => PageStartView::Cursor(cursor@),
        }
    }
}

impl PageStart {
    fn copy(&self) -> (out: PageStart)
        ensures
            out@ == self@,
    {
        match self {
            PageStart::Range { start, end_inclusive } => PageStart::Range {
                start: *start,
                end_inclusive: *end_inclusive,
            },
            PageStart::Cursor(cursor) => PageStart::Cursor(cursor.as_str().to_owned()),
        }
    }
}

/// The fetching of reported events, in the abstract.
pub struct EventPagerView {
    pub end_ledger: u64,
    pub limit: usize,
    pub events: Seq<RpcEvent>,
    /// Where the next page starts; none when all pages were fetched.
    pub next: Option<PageStartView>,
}

/// The event lies before the end of the range.
pub open spec fn in_range(event: RpcEvent, end_ledger: u64) -> bool {
    event.ledger < end_ledger
}

/// Some event of the page lies at the end of the range or past it.
pub open spec fn passes_end(page: Seq<RpcEvent>, end_ledger: u64) -> bool {
    exists|i: int| 0 <= i < page.len() && !in_range(#[trigger] page[i], end_ledger)
}

/// The events of a page that lie before the end of the range.
pub open spec fn kept(page: Seq<RpcEvent>, end_ledger: u64) -> Seq<RpcEvent> {
    page.filter(|event: RpcEvent| in_range(event, end_ledger))
}

impl EventPagerView {
    /// The fetching after a page. It is the last one where it passes the end of the
    /// range, is not full, or has no cursor.
    pub open spec fn after_page(self, page: Seq<RpcEvent>, cursor: Seq<char>) -> EventPagerView {
        EventPagerView {
            events: self.events + kept(page, self.end_ledger),
            next: if passes_end(page, self.end_ledger) || page.len() < self.limit || cursor.len()
                == 0 {
                None
            } else {
                Some(PageStartView::Cursor(cursor))
            },
            ..self
        }
    }
}

/// The fetching of the events of the ledgers from `start_ledger` up to, not
/// including, `end_ledger`. None where the range is empty.
pub open spec fn event_pager(start_ledger: u64, end_ledger: u64, limit: usize) -> Result<
    Option<EventPagerView>,
    RangeError,
> {
    if start_ledger >= end_ledger {
        Ok(None)
    } else if start_ledger > u32::MAX {
        Err(RangeError::StartTooLarge)
    } else if end_ledger - 1 > u32::MAX {
        Err(RangeError::EndTooLarge)
    } else {
        Ok(
            Some(
                EventPagerView {
                    end_ledger,
                    limit,
                    events: Seq::empty(),
                    next: Some(
                        PageStartView::Range {
                            start: start_ledger as u32,
                            end_inclusive: (end_ledger - 1) as u32,
                        },
                    ),
                },
            ),
        )
    }
}

/// The fetching of reported events.
#[derive(Debug)]
pub struct EventPager {
    end_ledger: u64,
    limit: usize,
    events: Vec<RpcEvent>,
    next: Option<PageStart>,
}

impl View for EventPager {
    type V = EventPagerView;

    closed spec fn view(&self) -> EventPagerView {
        EventPagerView {
            end_ledger: self.end_ledger,
            limit: self.limit,
            events: self.events@,
            next: start_view(self.next),
        }
    }
}

/// A start that may be there.
pub open spec fn start_view(next: Option<PageStart>) -> Option<PageStartView> {
    match next {
        Some(start) => Some(start@),
        None => None,
    }
}

/// The outcome of starting to fetch.
pub open spec fn pager_outcome(out: Result<Option<EventPager>, RangeError>) -> Result<
    Option<EventPagerView>,
    RangeError,
> {
    match out {
        Ok(Some(pager)) => Ok(Some(pager@)),
        Ok(None) => Ok(None),
        Err(error) => Err(error),
    }
}

impl EventPager {
    /// Starts to fetch the events of a range of ledgers.
    pub fn events_for_range(start_ledger: u64, end_ledger: u64, limit: usize) -> (out: Result<
        Option<EventPager>,
        RangeError,
    >)
        ensures
            pager_outcome(out) == event_pager(start_ledger, end_ledger, limit),
    {
        if start_ledger >= end_ledger {
            return Ok(None);
        }
        if start_ledger > u32::MAX as u64 {
            return Err(RangeError::StartTooLarge);
        }
        if end_ledger - 1 > u32::MAX as u64 {
            return Err(RangeError::EndTooLarge);
        }
        let pager = EventPager {
            end_ledger,
            limit,
            events: Vec::new(),
            next: Some(
                PageStart::Range {
                    start: start_ledger as u32,
                    end_inclusive: (end_ledger - 1) as u32,
                },
            ),
        };
        assert(pager@.events =~= Seq::empty());
        Ok(Some(pager))
    }

    /// Where the next page starts; none when all pages were fetched.
    pub fn next_page(&self) -> (out: Option<PageStart>)
        ensures
            start_view(out) == self@.next,
    {
        match &self.next {
            Some(start) => Some(start.copy()),
            None => None,
        }
    }

    /// Takes a page, with the cursor where it ended.
    pub fn accept_page(self, page: Vec<RpcEvent>, cursor: String) -> (out: EventPager)
        ensures
            out@ == self@.after_page(page@, cursor@),
    {
        let ghost all = page@;
        let end_ledger = self.end_ledger;
        let count: usize = page.len();
        let mut events = self.events;
        let ghost before = events@;
        let mut reached_end = false;
        let mut rest = reversed(page);
        let mut i: usize = 0;
        proof {
            assert(all.subrange(0, 0) =~= Seq::empty());
            reveal(Seq::filter);
            assert(events@ =~= before + kept(all.subrange(0, 0), end_ledger));
        }
        while i < count
            invariant
                count == all.len(),
                i <= count,
                rest@.len() == count - i,
                forall|k: int| 0 <= k < rest@.len() ==> rest@[k] == all[count - 1 - k],
                events@ == before + kept(all.subrange(0, i as int), end_ledger),
                reached_end == passes_end(all.subrange(0, i as int), end_ledger),
            decreases count - i,
        {
            let ghost front = all.subrange(0, i as int);
            let ghost next = all.subrange(0, i + 1);
            match rest.pop() {
                Some(event) => {
                    assert(event == all[i as int]);
                    proof {
                        assert(next.drop_last() =~= front);
                        assert(next.last() == event);
                        reveal(Seq::filter);
                        assert(kept(next, end_ledger) == if in_range(event, end_ledger) {
                            kept(front, end_ledger).push(event)
                        } else {
                            kept(front, end_ledger)
                        });
                        assert(passes_end(next, end_ledger) == (passes_end(front, end_ledger)
                            || !in_range(event, end_ledger))) by {
                            if passes_end(front, end_ledger) {
                                let k = choose|k: int|
                                    0 <= k < front.len() && !in_range(
                                        #[trigger] front[k],
                                        end_ledger,
                                    );
                                assert(next[k] == front[k]);
                            }
                            if !in_range(event, end_ledger) {
                                assert(!in_range(next[i as int], end_ledger));
                            }
                            if passes_end(next, end_ledger) {
                                let k = choose|k: int|
                                    0 <= k < next.len() && !in_range(#[trigger] next[k], end_ledger);
                                if k < i {
                                    assert(!in_range(front[k], end_ledger));
                                }
                            }
                        }
                    }
                    if (event.ledger as u64) < end_ledger {
                        events.push(event);
                    } else {
                        reached_end = true;
                    }
                    assert(events@ =~= before + kept(next, end_ledger));
                },
                None => {},
            }
            i = i + 1;
        }
        assert(all.subrange(0, count as int) =~= all);
        let next = if reached_end || count < self.limit || cursor.as_str().unicode_len() == 0 {
            None
        } else {
            Some(PageStart::Cursor(cursor))
        };
        EventPager { end_ledger, limit: self.limit, events, next }
    }

    /// The fetched events, in the order in which they are applied.
    pub fn finish(self) -> (out: Vec<RpcEvent>)
        ensures
            out@ == picked(self@.events, ordered(places(self@.events))),
    {
        sort_events(self.events)
    }
}

/// Why the ledgers of a range were not read, in the abstract.
pub enum FetchFault {
    Rpc { start_ledger: u64, end_ledger: u64, code: i64, message: Seq<char> },
    MissingResult,
    Decode { ledger: u32, error: Seq<char> },
    Extract { ledger: u32, why: FieldFault },
}

impl FetchFault {
    /// The error in words.
    pub open spec fn text(self) -> Seq<char> {
        match self {
            FetchFault::Rpc { start_ledger, end_ledger, code, message } =>
                "getLedgers RPC error for ledger range ["@ + decimal(start_ledger as nat) + ", "@
                + decimal(end_ledger as nat) + "): code="@ + signed_decimal(code as int)
                + ", message="@ + message,
            FetchFault::MissingResult => "getLedgers response missing result"@,
            FetchFault::Decode { ledger, error } =>
                "failed to decode LedgerCloseMeta for ledger "@ + decimal(ledger as nat) + ": "@
                + error,
            FetchFault::Extract { ledger, why } =>
                "failed to extract mixer events from LedgerCloseMeta for ledger "@ + decimal(
                ledger as nat,
            ) + ": "@ + why.text(),
        }
    }
}

/// Why the ledgers of a range were not read.
pub enum FetchError {
    /// The RPC service refused.
    Rpc { start_ledger: u64, end_ledger: u64, code: i64, message: String },
    /// The RPC service neither answered nor refused.
    MissingResult,
    /// The metadata of a ledger were not decoded.
    Decode { ledger: u32, error: String },
    /// An event of a ledger was not read.
    Extract { ledger: u32, why: FieldError },
}

impl View for FetchError {
    type V = FetchFault;

    open spec fn view(&self) -> FetchFault {
        match *self {
            FetchError::Rpc { start_ledger, end_ledger, code, message } => FetchFault::Rpc {
                start_ledger,
                end_ledger,
                code,
                message: message@,
            },
            FetchError::MissingResult => FetchFault::MissingResult,
            FetchError::Decode { ledger, error } => FetchFault::Decode { ledger, error: error@ },
            FetchError::Extract { ledger, why } => FetchFault::Extract { ledger, why: why@ },
        }
    }
}

impl FetchError {
    pub fn message(&self) -> (out: String)
        ensures
            out@ == self@.text(),
    {
        match self {
            FetchError::Rpc { start_ledger, end_ledger, code, message } => {
                let mut out = "getLedgers RPC error for ledger range [".to_owned();
                out.append(decimal_text(*start_ledger).as_str());
                out.append(", ");
                out.append(decimal_text(*end_ledger).as_str());
                out.append("): code=");
                out.append(signed_text(*code).as_str());
                out.append(", message=");
                out.append(message.as_str());
                out
            },
            FetchError::MissingResult => "getLedgers response missing result".to_owned(),
            FetchError::Decode { ledger, error } => {
                let mut out = "failed to decode LedgerCloseMeta for ledger ".to_owned();
                out.append(decimal_text(*ledger as u64).as_str());
                out.append(": ");
                out.append(error.as_str());
                out
            },
            FetchError::Extract { ledger, why } => {
                let mut out =
                    "failed to extract mixer events from LedgerCloseMeta for ledger ".to_owned();
                out.append(decimal_text(*ledger as u64).as_str());
                out.append(": ");
                out.append(why.message().as_str());
                out
            },
        }
    }
}

/// A ledger as the RPC service reports it, in the abstract.
pub struct ReportedLedger {
    pub sequence: u32,
    pub metadata_xdr: Seq<char>,
}

/// A ledger as the RPC service reports it.
#[derive(Debug)]
pub struct RpcLedger {
    pub sequence: u32,
    /// The base64 XDR of the ledger's metadata.
    pub metadata_xdr: String,
}

impl View for RpcLedger {
    type V = ReportedLedger;

    open spec fn view(&self) -> ReportedLedger {
        ReportedLedger { sequence: self.sequence, metadata_xdr: self.metadata_xdr@ }
    }
}

/// Ledgers in the abstract.
pub open spec fn ledger_views(list: Seq<RpcLedger>) -> Seq<ReportedLedger> {
    list.map_values(|ledger: RpcLedger| ledger@)
}

/// Why the RPC service refused.
#[derive(Debug)]
pub struct JsonRpcError {
    pub code: i64,
    pub message: String,
}

/// A page of ledgers.
#[derive(Debug)]
pub struct GetLedgersResult {
    pub ledgers: Vec<RpcLedger>,
    pub cursor: Option<String>,
}

/// What the RPC service answered.
#[derive(Debug)]
pub struct GetLedgersResponse {
    pub result: Option<GetLedgersResult>,
    pub error: Option<JsonRpcError>,
}

/// The events read so far, and what stopped the reading.
pub struct Gathered {
    pub events: Seq<LocalEvent>,
    pub error: Option<FetchFault>,
}

/// The reading goes past one ledger. One outside the range is passed over.
pub open spec fn gather_ledger(
    found: Gathered,
    ledger: ReportedLedger,
    start_ledger: u64,
    end_ledger: u64,
    contract: Seq<u8>,
) -> Gathered {
    if ledger.sequence >= end_ledger || ledger.sequence < start_ledger {
        found
    } else {
        match decoded_ledger(ledger.metadata_xdr) {
            Ok(transactions) => {
                let after = collect_ledger(
                    going(found.events),
                    ledger.sequence,
                    transactions,
                    contract,
                    0,
                );
                Gathered {
                    events: after.events,
                    error: match after.error {
                        Some(why) => Some(FetchFault::Extract { ledger: ledger.sequence, why }),
                        None => None,
                    },
                }
            },
            Err(error) => Gathered {
                error: Some(FetchFault::Decode { ledger: ledger.sequence, error }),
                ..found
            },
        }
    }
}

/// The reading goes on from ledger `i` of a page.
pub open spec fn gather_page(
    found: Gathered,
    ledgers: Seq<ReportedLedger>,
    start_ledger: u64,
    end_ledger: u64,
    contract: Seq<u8>,
    i: nat,
) -> Gathered
    decreases ledgers.len() - i,
{
    if i >= ledgers.len() || found.error is Some {
        found
    } else {
        gather_page(
            gather_ledger(found, ledgers[i as int], start_ledger, end_ledger, contract),
            ledgers,
            start_ledger,
            end_ledger,
            contract,
            i + 1,
        )
    }
}

/// Some ledger of the page lies at the end of the range or past it.
pub open spec fn ledgers_pass_end(ledgers: Seq<ReportedLedger>, end_ledger: u64) -> bool {
    exists|i: int| 0 <= i < ledgers.len() && (#[trigger] ledgers[i]).sequence >= end_ledger
}

/// The reading of ledgers, in the abstract.
pub struct LedgerPagerView {
    pub start_ledger: u64,
    pub end_ledger: u64,
    pub limit: usize,
    pub contract: Seq<u8>,
    pub events: Seq<LocalEvent>,
    /// Where the next page starts: none for the first ledger of the range.
    pub cursor: Option<Seq<char>>,
    pub done: bool,
}

/// A text that may be there, or else the empty text.
pub open spec fn text_or_empty(text: Option<String>) -> Seq<char> {
    match text {
        Some(s) => s@,
        None => Seq::empty(),
    }
}

impl LedgerPagerView {
    /// The reading after an answer. A page is the last one where it passes the end
    /// of the range, is not full, or has no cursor.
    pub open spec fn after_response(self, response: GetLedgersResponse) -> Result<
        LedgerPagerView,
        FetchFault,
    > {
        match (response.error, response.result) {
            (Some(error), _) => Err(
                FetchFault::Rpc {
                    start_ledger: self.start_ledger,
                    end_ledger: self.end_ledger,
                    code: error.code,
                    message: error.message@,
                },
            ),
            (None, None) => Err(FetchFault::MissingResult),
            (None, Some(page)) => {
                let ledgers = ledger_views(page.ledgers@);
                let after = gather_page(
                    Gathered { events: self.events, error: None },
                    ledgers,
                    self.start_ledger,
                    self.end_ledger,
                    self.contract,
                    0,
                );
                let cursor = text_or_empty(page.cursor);
                let last = ledgers_pass_end(ledgers, self.end_ledger) || ledgers.len() < self.limit
                    || cursor.len() == 0;
                match after.error {
                    Some(error) => Err(error),
                    None => Ok(
                        LedgerPagerView {
                            events: after.events,
                            cursor: if last {
                                self.cursor
                            } else {
                                Some(cursor)
                            },
                            done: last,
                            ..self
                        },
                    ),
                }
            },
        }
    }
}

/// The reading of ledgers.
#[derive(Debug)]
pub struct LedgerPager {
    start_ledger: u64,
    end_ledger: u64,
    limit: usize,
    contract: TreeHash,
    events: Vec<LocalLedgerEvent>,
    cursor: Option<String>,
    done: bool,
}

/// A cursor that may be there.
pub open spec fn cursor_view(cursor: Option<String>) -> Option<Seq<char>> {
    match cursor {
        Some(s) => Some(s@),
        None => None,
    }
}

impl View for LedgerPager {
    type V = LedgerPagerView;

    closed spec fn view(&self) -> LedgerPagerView {
        LedgerPagerView {
            start_ledger: self.start_ledger,
            end_ledger: self.end_ledger,
            limit: self.limit,
            contract: self.contract@,
            events: local_views(self.events@),
            cursor: cursor_view(self.cursor),
            done: self.done,
        }
    }
}

/// What is asked of the RPC service.
#[derive(Debug)]
pub struct GetLedgersRequest {
    /// The first ledger, where there is no cursor.
    pub start_ledger: u64,
    pub cursor: Option<String>,
    pub limit: usize,
}

/// The outcome of taking an answer.
pub open spec fn fetch_outcome(out: Result<LedgerPager, FetchError>) -> Result<
    LedgerPagerView,
    FetchFault,
> {
    match out {
        Ok(pager) => Ok(pager@),
        Err(error) => Err(error@),
    }
}

impl LedgerPager {
    /// Starts to read the ledgers from `start_ledger` up to, not including,
    /// `end_ledger`. None where the range is empty.
    pub fn events_from_ledger_close_meta_range(
        start_ledger: u64,
        end_ledger: u64,
        limit: usize,
        contract: TreeHash,
    ) -> (out: Option<LedgerPager>)
        ensures
            match out {
                Some(pager) => start_ledger < end_ledger && pager@ == (LedgerPagerView {
                    start_ledger,
                    end_ledger,
                    limit,
                    contract: contract@,
                    events: Seq::empty(),
                    cursor: None,
                    done: false,
                }),
                None => start_ledger >= end_ledger,
            },
    {
        if start_ledger >= end_ledger {
            return None;
        }
        let pager = LedgerPager {
            start_ledger,
            end_ledger,
            limit,
            contract,
            events: Vec::new(),
            cursor: None,
            done: false,
        };
        assert(pager@.events =~= Seq::empty());
        Some(pager)
    }

    /// What is asked of the RPC service; none when all pages were read.
    pub fn next_page(&self) -> (out: Option<GetLedgersRequest>)
        ensures
            match out {
                Some(request) => {
                    &&& !self@.done
                    &&& request.start_ledger == self@.start_ledger
                    &&& cursor_view(request.cursor) == self@.cursor
                    &&& request.limit == self@.limit
                },
                None => self@.done,
            },
    {
        if self.done {
            return None;
        }
        let cursor = match &self.cursor {
            Some(cursor) => Some(cursor.as_str().to_owned()),
            None => None,
        };
        Some(GetLedgersRequest { start_ledger: self.start_ledger, cursor, limit: self.limit })
    }

    /// Takes what the RPC service answered.
    pub fn accept_response(self, response: GetLedgersResponse) -> (out: Result<
        LedgerPager,
        FetchError,
    >)
        ensures
            fetch_outcome(out) == self@.after_response(response),
    {
        match response.error {
            Some(error) => {
                return Err(
                    FetchError::Rpc {
                        start_ledger: self.start_ledger,
                        end_ledger: self.end_ledger,
                        code: error.code,
                        message: error.message,
                    },
                );
            },
            None => {},
        }
        let page = match response.result {
            Some(page) => page,
            None => {
                return Err(FetchError::MissingResult);
            },
        };
        let (start_ledger, end_ledger, contract) = (
            self.start_ledger,
            self.end_ledger,
            self.contract,
        );
        let count: usize = page.ledgers.len();
        let ghost ledgers = ledger_views(page.ledgers@);
        let ghost whole = gather_page(
            Gathered { events: self@.events, error: None },
            ledgers,
            start_ledger,
            end_ledger,
            contract@,
            0,
        );
        let mut events = self.events;
        let mut reached_end = false;
        let mut i: usize = 0;
        while i < count
            invariant
                count == page.ledgers@.len(),
                ledgers == ledger_views(page.ledgers@),
                response.error is None,
                response.result == Some(page),
                start_ledger == self.start_ledger,
                end_ledger == self.end_ledger,
                contract == self.contract,
                i <= count,
                whole == gather_page(
                    Gathered { events: self@.events, error: None },
                    ledgers,
                    start_ledger,
                    end_ledger,
                    contract@,
                    0,
                ),
                whole == gather_page(
                    Gathered { events: local_views(events@), error: None },
                    ledgers,
                    start_ledger,
                    end_ledger,
                    contract@,
                    i as nat,
                ),
                reached_end == ledgers_pass_end(ledgers.subrange(0, i as int), end_ledger),
            decreases count - i,
        {
            proof {
                reveal_with_fuel(gather_page, 2);
                assert(ledgers[i as int] == page.ledgers@[i as int]@);
                lemma_pass_end(ledgers, end_ledger, i as int);
            }
            let ledger = &page.ledgers[i];
            let sequence = ledger.sequence as u64;
            if sequence >= end_ledger {
                reached_end = true;
            } else if sequence >= start_ledger {
                let meta = match LedgerEvents::from_xdr_base64(ledger.metadata_xdr.as_str()) {
                    Ok(meta) => meta,
                    Err(error) => {
                        return Err(FetchError::Decode { ledger: ledger.sequence, error });
                    },
                };
                match collect_mixer_events_from_ledger_close_meta(
                    ledger.sequence,
                    &meta,
                    &contract,
                    &mut events,
                ) {
                    Ok(()) => {},
                    Err(why) => {
                        return Err(FetchError::Extract { ledger: ledger.sequence, why });
                    },
                }
            }
            i = i + 1;
        }
        assert(ledgers.subrange(0, count as int) =~= ledgers);
        let cursor = match page.cursor {
            Some(cursor) => cursor,
            None => String::new(),
        };
        let done = reached_end || count < self.limit || cursor.as_str().unicode_len() == 0;
        let next = if done {
            self.cursor
        } else {
            Some(cursor)
        };
        Ok(
            LedgerPager {
                start_ledger,
                end_ledger,
                limit: self.limit,
                contract,
                events,
                cursor: next,
                done,
            },
        )
    }

    /// The events that were read, from ledger to ledger, those of each ledger as they
    /// were found.
    pub fn finish(self) -> (out: Vec<LocalLedgerEvent>)
        ensures
            local_views(out@) == picked(self@.events, by_ledger(self@.events)),
            keeps_found_order(self@.events, by_ledger(self@.events)),
    {
        let ghost all = self.events@;
        let out = sort_events(self.events);
        proof {
            assert(places(all) =~= local_places(local_views(all)));
            ledgers_keep_their_order(local_views(all));
            assert(local_views(out@) =~= picked(local_views(all), ordered(places(all))));
        }
        out
    }
}

/// The places of events that were found in ledgers.
pub open spec fn local_places(list: Seq<LocalEvent>) -> Seq<Place> {
    list.map_values(|event: LocalEvent| Place { ledger: event.ledger, within: Seq::empty() })
}

/// The positions of events in the order in which they are applied.
pub open spec fn by_ledger(events: Seq<LocalEvent>) -> Seq<int> {
    ordered(local_places(events))
}

/// `at` holds the position of each event once and goes from ledger to ledger. Of
/// two events of one ledger, the one that was found first comes first.
pub open spec fn keeps_found_order(events: Seq<LocalEvent>, at: Seq<int>) -> bool {
    &&& all_positions(at, events.len())
    &&& forall|i: int, j: int|
        #![trigger at[i], at[j]]
        0 <= i < j < at.len() ==> {
            &&& events[at[i]].ledger <= events[at[j]].ledger
            &&& events[at[i]].ledger == events[at[j]].ledger ==> at[i] < at[j]
        }
}

/// Events that were read are applied from ledger to ledger, those of each ledger in
/// the order in which they were found.
pub proof fn ledgers_keep_their_order(events: Seq<LocalEvent>)
    ensures
        keeps_found_order(events, by_ledger(events)),
{
    let list = local_places(events);
    let at = by_ledger(events);
    sorting_is_a_stable_reordering(list);
    assert forall|i: int, j: int|
        #![trigger at[i], at[j]]
        0 <= i < j < at.len() implies {
        &&& events[at[i]].ledger <= events[at[j]].ledger
        &&& events[at[i]].ledger == events[at[j]].ledger ==> at[i] < at[j]
    } by {
        assert(list[at[i]].ledger == events[at[i]].ledger);
        assert(list[at[j]].ledger == events[at[j]].ledger);
        assert(!place_before(list[at[j]], list[at[i]]));
    }
}

/// Whether the first `i + 1` ledgers pass the end, given whether the first `i` do.
proof fn lemma_pass_end(ledgers: Seq<ReportedLedger>, end_ledger: u64, i: int)
    requires
        0 <= i < ledgers.len(),
    ensures
        ledgers_pass_end(ledgers.subrange(0, i + 1), end_ledger) == (ledgers_pass_end(
            ledgers.subrange(0, i),
            end_ledger,
        ) || ledgers[i].sequence >= end_ledger),
{
    let front = ledgers.subrange(0, i);
    let next = ledgers.subrange(0, i + 1);
    if ledgers_pass_end(front, end_ledger) {
        let k = choose|k: int|
            0 <= k < front.len() && (#[trigger] front[k]).sequence >= end_ledger;
        assert(next[k] == front[k]);
    }
    if ledgers[i].sequence >= end_ledger {
        assert(next[i] == ledgers[i]);
    }
    if ledgers_pass_end(next, end_ledger) {
        let k = choose|k: int| 0 <= k < next.len() && (#[trigger] next[k]).sequence >= end_ledger;
        if k < i {
            assert(front[k] == next[k]);
        }
    }
}

/// A page adds exactly its events that lie before the end of the range.
pub proof fn page_adds_events_in_range(
    pager: EventPagerView,
    page: Seq<RpcEvent>,
    cursor: Seq<char>,
    event: RpcEvent,
)
    ensures
        pager.after_page(page, cursor).events.contains(event) == (pager.events.contains(event) || (
        page.contains(event) && in_range(event, pager.end_ledger))),
{
    let more = kept(page, pager.end_ledger);
    let all = pager.events + more;
    let fits = |e: RpcEvent| in_range(e, pager.end_ledger);
    assert(more == page.filter(fits));
    if page.contains(event) && in_range(event, pager.end_ledger) {
        let i = choose|i: int| 0 <= i < page.len() && page[i] == event;
        page.lemma_filter_contains(fits, i);
    }
    if more.contains(event) {
        let i = choose|i: int| 0 <= i < more.len() && more[i] == event;
        page.lemma_filter_pred(fits, i);
        page.lemma_filter_contains_rev(fits, event);
    }
    if pager.events.contains(event) {
        let i = choose|i: int| 0 <= i < pager.events.len() && pager.events[i] == event;
        assert(all[i] == event);
    }
    if more.contains(event) {
        let i = choose|i: int| 0 <= i < more.len() && more[i] == event;
        assert(all[pager.events.len() + i] == event);
    }
    if all.contains(event) {
        let i = choose|i: int| 0 <= i < all.len() && all[i] == event;
        if i < pager.events.len() {
            assert(pager.events[i] == event);
        } else {
            assert(more[i - pager.events.len()] == event);
        }
    }
}

/// The events are of ledgers from `start_ledger` up to, not including,
/// `end_ledger`.
pub open spec fn within(events: Seq<LocalEvent>, start_ledger: u64, end_ledger: u64) -> bool {
    forall|i: int|
        0 <= i < events.len() ==> start_ledger <= (#[trigger] events[i]).ledger < end_ledger
}

/// Whatever ledgers the RPC service reports, only events of the range that was
/// asked for are read from them, and those that were read before stay.
pub proof fn page_adds_ledgers_in_range(
    found: Gathered,
    ledgers: Seq<ReportedLedger>,
    start_ledger: u64,
    end_ledger: u64,
    contract: Seq<u8>,
    i: nat,
)
    requires
        within(found.events, start_ledger, end_ledger),
    ensures
        within(
            gather_page(found, ledgers, start_ledger, end_ledger, contract, i).events,
            start_ledger,
            end_ledger,
        ),
        found.events.is_prefix_of(
            gather_page(found, ledgers, start_ledger, end_ledger, contract, i).events,
        ),
    decreases ledgers.len() - i,
{
    if i < ledgers.len() && found.error is None {
        let ledger = ledgers[i as int];
        let next = gather_ledger(found, ledger, start_ledger, end_ledger, contract);
        if start_ledger <= ledger.sequence < end_ledger {
            match decoded_ledger(ledger.metadata_xdr) {
                Ok(transactions) => {
                    ledger_events_are_appended(
                        going(found.events),
                        ledger.sequence,
                        transactions,
                        contract,
                        0,
                    );
                    assert forall|k: int| 0 <= k < next.events.len() implies start_ledger <= (
                    #[trigger] next.events[k]).ledger < end_ledger by {
                        if k < found.events.len() {
                            assert(next.events.subrange(0, found.events.len() as int)[k]
                                == found.events[k]);
                        }
                    }
                },
                Err(_) => {},
            }
        }
        page_adds_ledgers_in_range(next, ledgers, start_ledger, end_ledger, contract, i + 1);
        let last = gather_page(next, ledgers, start_ledger, end_ledger, contract, i + 1).events;
        assert(found.events =~= last.subrange(0, found.events.len() as int)) by {
            assert forall|k: int| 0 <= k < found.events.len() implies found.events[k]
                == last[k] by {
                assert(last.subrange(0, next.events.len() as int)[k] == next.events[k]);
                assert(next.events.subrange(0, found.events.len() as int)[k] == found.events[k]);
            }
        }
    } else {
        assert(found.events =~= found.events.subrange(0, found.events.len() as int));
    }
}

} // verus!
