//! What following the pages of the RPC service comes to: every event of the range is
//! read, however many pages that takes.
use vstd::prelude::*;

use crate::apply_laws::Incoming;
use crate::chain_laws::{
    all_incoming, ascending, events_come_out_as_on_the_chain, lemma_all_emitted_add,
    lemma_ledger_apart, lemma_page_emits, wanted, Wanted,
};
use crate::encoding::TreeHash;
use crate::fetch::{
    by_ledger, cursor_view, gather_ledger, gather_page, ledger_views, EventPager, EventPagerView, FetchError,
    Gathered, GetLedgersRequest,
    GetLedgersResponse, GetLedgersResult, LedgerPager, LedgerPagerView, PageStart, PageStartView, RangeError,
    ReportedLedger,
};
use crate::found_laws::{search_outcome, Search};
use crate::ledger_events::{going, local_views, LocalLedgerEvent};
use crate::ledger_meta::decoded_ledger;
use crate::order::{
    all_positions, ordered, picked, place_before, places, positions, slot,
    sorting_is_a_stable_reordering, Placed,
};
use crate::rpc_events::RpcEvent;
use crate::text::text_before;

verus! {

/// The position in a list `limit` items after `p`, or its end.
pub open spec fn page_end(len: nat, p: nat, limit: usize) -> nat {
    if p + limit < len {
        (p + limit) as nat
    } else {
        len
    }
}

/// An RPC service that reports the ledgers of a chain.
pub struct LedgerService {
    /// The ledgers of the chain.
    pub chain: Seq<ReportedLedger>,
    /// The cursor that stands for a position in the chain.
    pub cursors: spec_fn(nat) -> Seq<char>,
    /// The answer to a request: to its first ledger, its cursor and its limit.
    pub answer: spec_fn(u64, Option<Seq<char>>, usize) -> GetLedgersResponse,
}

impl LedgerService {
    /// The answer reports `limit` ledgers from position `p` on, or those that are
    /// left, and names the position where it ends.
    pub open spec fn is_page(self, response: GetLedgersResponse, p: nat, limit: usize) -> bool {
        &&& response.error is None
        &&& response.result matches Some(page) && {
            &&& ledger_views(page.ledgers@) == self.chain.subrange(
                p as int,
                page_end(self.chain.len(), p, limit) as int,
            )
            &&& page.cursor matches Some(cursor) && cursor@ == (self.cursors)(
                page_end(self.chain.len(), p, limit),
            )
        }
    }

    /// Position `p` is that of the first ledger from `start` on.
    pub open spec fn starts_at(self, start: u64, p: nat) -> bool {
        &&& p <= self.chain.len()
        &&& forall|i: int| 0 <= i < p ==> (#[trigger] self.chain[i]).sequence < start
        &&& forall|i: int| p <= i < self.chain.len() ==> (#[trigger] self.chain[i]).sequence >= start
    }

    /// The service reports the ledgers of the chain in order, a request without a
    /// cursor from its first ledger on, one with a cursor from there on.
    pub open spec fn honest(self) -> bool {
        &&& ascending(self.chain)
        &&& forall|p: nat| #[trigger] (self.cursors)(p).len() > 0
        &&& forall|start: u64, limit: usize, p: nat|
            #[trigger] self.starts_at(start, p) ==> self.is_page(
                #[trigger] (self.answer)(start, None, limit),
                p,
                limit,
            )
        &&& forall|start: u64, limit: usize, p: nat|
            p <= self.chain.len() ==> self.is_page(
                #[trigger] (self.answer)(start, Some((self.cursors)(p)), limit),
                p,
                limit,
            )
    }

    /// `after` is the reading `before` with the answer to what it asks for.
    pub open spec fn answers(
        self,
        before: LedgerPager,
        request: GetLedgersRequest,
        after: LedgerPager,
    ) -> bool {
        &&& call_ensures(LedgerPager::next_page, (&before,), Some(request))
        &&& call_ensures(
            LedgerPager::accept_response,
            (
                before,
                (self.answer)(request.start_ledger, cursor_view(request.cursor), request.limit),
            ),
            Ok(after),
        )
    }

    /// `pagers` is a reading from its start on, each answered in turn.
    pub open spec fn followed(
        self,
        start_ledger: u64,
        end_ledger: u64,
        limit: usize,
        contract: TreeHash,
        pagers: Seq<LedgerPager>,
        requests: Seq<GetLedgersRequest>,
    ) -> bool {
        &&& pagers.len() == requests.len() + 1
        &&& call_ensures(
            LedgerPager::events_from_ledger_close_meta_range,
            (start_ledger, end_ledger, limit, contract),
            Some(pagers[0]),
        )
        &&& forall|k: int|
            0 <= k < requests.len() ==> self.answers(pagers[k], #[trigger] requests[k], pagers[k + 1])
    }
}

/// Where a reading that follows a service stands.
spec fn reads_up_to(
    service: LedgerService,
    w: Wanted,
    limit: usize,
    pager: LedgerPagerView,
    p: nat,
) -> bool {
    &&& pager.start_ledger == w.start_ledger
    &&& pager.end_ledger == w.end_ledger
    &&& pager.contract == w.contract
    &&& pager.limit == limit
    &&& p <= service.chain.len()
    &&& all_incoming(pager.events) == w.all_emitted(service.chain.subrange(0, p as int))
    &&& pager.done ==> all_incoming(pager.events) == w.all_emitted(service.chain)
    &&& !pager.done ==> match pager.cursor {
        Some(cursor) => cursor == (service.cursors)(p),
        None => service.starts_at(w.start_ledger, p),
    }
}

/// Ledgers outside the range emit nothing.
proof fn lemma_outside(w: Wanted, ledgers: Seq<ReportedLedger>)
    requires
        forall|i: int|
            0 <= i < ledgers.len() ==> (#[trigger] ledgers[i]).sequence < w.start_ledger
                || ledgers[i].sequence >= w.end_ledger,
    ensures
        w.all_emitted(ledgers) == Seq::<Incoming>::empty(),
    decreases ledgers.len(),
{
    if ledgers.len() > 0 {
        lemma_outside(w, ledgers.drop_first());
        assert(w.emitted(ledgers[0]) =~= Seq::empty());
        assert(w.all_emitted(ledgers) =~= Seq::empty());
    }
}

/// An answer takes a reading to the end of the page.
proof fn lemma_answered(
    service: LedgerService,
    w: Wanted,
    limit: usize,
    pager: LedgerPagerView,
    p: nat,
    response: GetLedgersResponse,
)
    requires
        service.honest(),
        reads_up_to(service, w, limit, pager, p),
        !pager.done,
        service.is_page(response, p, limit),
        pager.after_response(response) is Ok,
    ensures
        reads_up_to(
            service,
            w,
            limit,
            pager.after_response(response)->Ok_0,
            page_end(service.chain.len(), p, limit),
        ),
        !pager.after_response(response)->Ok_0.done ==> p + limit <= service.chain.len(),
{
    let chain = service.chain;
    let q = page_end(chain.len(), p, limit);
    let after = pager.after_response(response)->Ok_0;
    let ledgers = chain.subrange(p as int, q as int);
    lemma_page_emits(w, Gathered { events: pager.events, error: None }, ledgers, 0);
    assert(ledgers.subrange(0, ledgers.len() as int) =~= ledgers);
    let front = chain.subrange(0, p as int);
    assert(chain.subrange(0, q as int) =~= front + ledgers);
    lemma_all_emitted_add(w, front, ledgers);
    let rest = chain.subrange(q as int, chain.len() as int);
    assert(chain =~= chain.subrange(0, q as int) + rest);
    lemma_all_emitted_add(w, chain.subrange(0, q as int), rest);
    let cursor = (service.cursors)(q);
    assert(cursor.len() > 0);
    if after.done {
        if ledgers.len() < limit {
            assert(rest =~= Seq::empty());
        } else {
            let k = choose|k: int|
                0 <= k < ledgers.len() && (#[trigger] ledgers[k]).sequence >= w.end_ledger;
            assert forall|i: int| 0 <= i < rest.len() implies (#[trigger] rest[i]).sequence
                < w.start_ledger || rest[i].sequence >= w.end_ledger by {
                assert(chain[p + k].sequence < chain[q + i].sequence);
            }
            lemma_outside(w, rest);
        }
        assert(w.all_emitted(rest) =~= Seq::empty());
        assert(w.all_emitted(chain) =~= w.all_emitted(chain.subrange(0, q as int)));
    }
}

/// Each step of a reading that follows a service takes it to the end of a page.
proof fn lemma_followed(
    service: LedgerService,
    start_ledger: u64,
    end_ledger: u64,
    limit: usize,
    contract: TreeHash,
    pagers: Seq<LedgerPager>,
    requests: Seq<GetLedgersRequest>,
    first: nat,
    k: nat,
) -> (p: nat)
    requires
        service.honest(),
        service.followed(start_ledger, end_ledger, limit, contract, pagers, requests),
        service.starts_at(start_ledger, first),
        k <= requests.len(),
    ensures
        reads_up_to(
            service,
            Wanted { start_ledger, end_ledger, contract: contract@ },
            limit,
            pagers[k as int]@,
            p,
        ),
        limit > 0 && !pagers[k as int]@.done ==> k <= p,
    decreases k,
{
    let w = Wanted { start_ledger, end_ledger, contract: contract@ };
    if k == 0 {
        let front = service.chain.subrange(0, first as int);
        lemma_outside(w, front);
        assert(all_incoming(pagers[0]@.events) =~= Seq::empty());
        first
    } else {
        let j = (k - 1) as nat;
        let p = lemma_followed(
            service,
            start_ledger,
            end_ledger,
            limit,
            contract,
            pagers,
            requests,
            first,
            j,
        );
        let request = requests[j as int];
        assert(service.answers(pagers[j as int], request, pagers[j as int + 1]));
        let pager = pagers[j as int]@;
        let response = (service.answer)(
            request.start_ledger,
            cursor_view(request.cursor),
            request.limit,
        );
        match pager.cursor {
            Some(_) => {
                assert(service.is_page(
                    (service.answer)(start_ledger, Some((service.cursors)(p)), limit),
                    p,
                    limit,
                ));
            },
            None => {
                assert(service.starts_at(start_ledger, p));
                assert(service.is_page((service.answer)(start_ledger, None, limit), p, limit));
            },
        }
        lemma_answered(service, w, limit, pager, p, response);
        page_end(service.chain.len(), p, limit)
    }
}

/// Following the pages of a service that reports the chain until it asks for no more
/// reads every event of the contract in the ledgers of the range, in the order of
/// the chain, however many pages that takes.
pub proof fn following_the_pages_reads_the_whole_range(
    service: LedgerService,
    start_ledger: u64,
    end_ledger: u64,
    limit: usize,
    contract: TreeHash,
    pagers: Seq<LedgerPager>,
    requests: Seq<GetLedgersRequest>,
    first: nat,
    out: Vec<LocalLedgerEvent>,
)
    requires
        service.honest(),
        service.starts_at(start_ledger, first),
        service.followed(start_ledger, end_ledger, limit, contract, pagers, requests),
        call_ensures(LedgerPager::next_page, (&pagers.last(),), None),
        call_ensures(LedgerPager::finish, (pagers.last(),), out),
    ensures
        all_incoming(local_views(out@)) == (Wanted {
            start_ledger,
            end_ledger,
            contract: contract@,
        }).all_emitted(service.chain),
{
    let w = Wanted { start_ledger, end_ledger, contract: contract@ };
    let p = lemma_followed(
        service,
        start_ledger,
        end_ledger,
        limit,
        contract,
        pagers,
        requests,
        first,
        requests.len(),
    );
    let found = pagers.last()@.events;
    let at = Seq::new(service.chain.len(), |i: int| i);
    assert(all_positions(at, service.chain.len()));
    assert(picked(service.chain, at) =~= service.chain);
    events_come_out_as_on_the_chain(w, service.chain, at, found);
    assert(local_views(out@) == picked(found, by_ledger(found)));
}

/// A reading that follows a service ends: it asks for no more pages than the chain
/// has ledgers, and one.
pub proof fn following_the_pages_ends(
    service: LedgerService,
    start_ledger: u64,
    end_ledger: u64,
    limit: usize,
    contract: TreeHash,
    pagers: Seq<LedgerPager>,
    requests: Seq<GetLedgersRequest>,
    first: nat,
    next: GetLedgersRequest,
)
    requires
        limit > 0,
        service.honest(),
        service.starts_at(start_ledger, first),
        service.followed(start_ledger, end_ledger, limit, contract, pagers, requests),
        call_ensures(LedgerPager::next_page, (&pagers.last(),), Some(next)),
    ensures
        requests.len() <= service.chain.len(),
{
    let p = lemma_followed(
        service,
        start_ledger,
        end_ledger,
        limit,
        contract,
        pagers,
        requests,
        first,
        requests.len(),
    );
}

/// After a page of ledgers, the reading goes on if and only if the page was full, all
/// of its ledgers lie before the end of the range, and it has a cursor. It then goes
/// on from that cursor.
pub proof fn reading_goes_on_from_the_cursor(
    pager: LedgerPager,
    response: GetLedgersResponse,
    after: LedgerPager,
    start_ledger: u64,
    end_ledger: u64,
    limit: usize,
    next: Option<GetLedgersRequest>,
)
    requires
        pager@.start_ledger == start_ledger,
        pager@.end_ledger == end_ledger,
        pager@.limit == limit,
        call_ensures(LedgerPager::accept_response, (pager, response), Ok(after)),
        call_ensures(LedgerPager::next_page, (&after,), next),
    ensures
        response.error is None,
        response.result matches Some(page) && {
            let full = page.ledgers@.len() >= limit;
            let before_end = forall|i: int|
                0 <= i < page.ledgers@.len() ==> (#[trigger] page.ledgers@[i]).sequence < end_ledger;
            let has_cursor = page.cursor matches Some(cursor) && cursor@.len() > 0;
            &&& next is Some <==> full && before_end && has_cursor
            &&& next matches Some(request) ==> {
                &&& request.start_ledger == start_ledger
                &&& request.limit == limit
                &&& request.cursor matches Some(cursor) && cursor@ == page.cursor->0@
            }
        },
{
    let page = response.result->0;
    let ledgers = ledger_views(page.ledgers@);
    if forall|i: int|
        0 <= i < page.ledgers@.len() ==> (#[trigger] page.ledgers@[i]).sequence < end_ledger {
        assert forall|i: int| 0 <= i < ledgers.len() implies (#[trigger] ledgers[i]).sequence
            < end_ledger by {
            assert(ledgers[i] == page.ledgers@[i]@);
        }
    } else {
        let i = choose|i: int|
            0 <= i < page.ledgers@.len() && !((#[trigger] page.ledgers@[i]).sequence < end_ledger);
        assert(ledgers[i].sequence >= end_ledger);
    }
}

/// An RPC service that reports the events of a chain.
pub struct EventService {
    /// The events of the chain.
    pub events: Seq<RpcEvent>,
    /// The cursor that stands for a position in the events.
    pub cursors: spec_fn(nat) -> Seq<char>,
    /// The page for a start, and the cursor where it ends.
    pub answer: spec_fn(PageStartView) -> (Vec<RpcEvent>, String),
}

/// No event stands before one that it follows: by ledger, and in a ledger by id.
pub open spec fn in_order_of_ids(events: Seq<RpcEvent>) -> bool {
    forall|i: int, j: int|
        #![trigger events[i], events[j]]
        0 <= i < j < events.len() ==> {
            ||| events[i].ledger < events[j].ledger
            ||| events[i].ledger == events[j].ledger && !text_before(events[j].id@, events[i].id@)
        }
}

impl EventService {
    /// The answer is a page of `limit` events from position `p` on, or of those that
    /// are left, with the cursor of the position where it ends.
    pub open spec fn is_page(self, answer: (Vec<RpcEvent>, String), p: nat, limit: usize) -> bool {
        &&& answer.0@ == self.events.subrange(
            p as int,
            page_end(self.events.len(), p, limit) as int,
        )
        &&& answer.1@ == (self.cursors)(page_end(self.events.len(), p, limit))
    }

    /// Position `p` is that of the first event from ledger `start` on.
    pub open spec fn starts_at(self, start: u64, p: nat) -> bool {
        &&& p <= self.events.len()
        &&& forall|i: int| 0 <= i < p ==> (#[trigger] self.events[i]).ledger < start
        &&& forall|i: int| p <= i < self.events.len() ==> (#[trigger] self.events[i]).ledger >= start
    }

    /// The service reports the events in order: for the ledgers from `start_ledger`
    /// on from the first of them on, for a cursor from there on.
    pub open spec fn honest(self, start_ledger: u64, end_ledger: u64, limit: usize, first: nat) -> bool {
        &&& in_order_of_ids(self.events)
        &&& forall|p: nat| #[trigger] (self.cursors)(p).len() > 0
        &&& self.starts_at(start_ledger, first)
        &&& self.is_page(
            (self.answer)(
                PageStartView::Range {
                    start: start_ledger as u32,
                    end_inclusive: (end_ledger - 1) as u32,
                },
            ),
            first,
            limit,
        )
        &&& forall|p: nat|
            p <= self.events.len() ==> self.is_page(
                #[trigger] (self.answer)(PageStartView::Cursor((self.cursors)(p))),
                p,
                limit,
            )
    }

    /// `after` is the fetching `before` with the page that it asks for.
    pub open spec fn answers(self, before: EventPager, start: PageStart, after: EventPager) -> bool {
        &&& call_ensures(EventPager::next_page, (&before,), Some(start))
        &&& call_ensures(
            EventPager::accept_page,
            (before, (self.answer)(start@).0, (self.answer)(start@).1),
            after,
        )
    }

    /// `pagers` is a fetching from its start on, each answered in turn.
    pub open spec fn followed(
        self,
        start_ledger: u64,
        end_ledger: u64,
        limit: usize,
        pagers: Seq<EventPager>,
        starts: Seq<PageStart>,
    ) -> bool {
        &&& pagers.len() == starts.len() + 1
        &&& call_ensures(
            EventPager::events_for_range,
            (start_ledger, end_ledger, limit),
            Ok::<Option<EventPager>, RangeError>(Some(pagers[0])),
        )
        &&& forall|k: int|
            0 <= k < starts.len() ==> self.answers(pagers[k], #[trigger] starts[k], pagers[k + 1])
    }

}

/// The events of the ledgers from `start_ledger` up to, not including, `end_ledger`,
/// in order.
pub open spec fn in_ledgers(events: Seq<RpcEvent>, start_ledger: u64, end_ledger: u64) -> Seq<
    RpcEvent,
> {
    events.filter(|event: RpcEvent| start_ledger <= event.ledger < end_ledger)
}

/// Where a fetching that follows a service stands.
spec fn fetched_up_to(
    service: EventService,
    start_ledger: u64,
    end_ledger: u64,
    limit: usize,
    first: nat,
    pager: EventPagerView,
    p: nat,
) -> bool {
    &&& pager.end_ledger == end_ledger
    &&& pager.limit == limit
    &&& first <= p <= service.events.len()
    &&& pager.events == in_ledgers(service.events.subrange(0, p as int), start_ledger, end_ledger)
    &&& match pager.next {
        None => pager.events == in_ledgers(service.events, start_ledger, end_ledger),
        Some(PageStartView::Range { start, end_inclusive }) => {
            &&& p == first
            &&& start == start_ledger as u32
            &&& end_inclusive == (end_ledger - 1) as u32
        },
        Some(PageStartView::Cursor(cursor)) => cursor == (service.cursors)(p),
    }
}

proof fn lemma_filter_none(events: Seq<RpcEvent>, start_ledger: u64, end_ledger: u64)
    requires
        forall|i: int|
            0 <= i < events.len() ==> !(start_ledger <= (#[trigger] events[i]).ledger < end_ledger),
    ensures
        events.filter(|event: RpcEvent| start_ledger <= event.ledger < end_ledger) == Seq::<
            RpcEvent,
        >::empty(),
    decreases events.len(),
{
    reveal(Seq::filter);
    if events.len() > 0 {
        lemma_filter_none(events.drop_last(), start_ledger, end_ledger);
    } else {
        assert(events =~= Seq::empty());
    }
}

proof fn lemma_filter_from_start(events: Seq<RpcEvent>, start_ledger: u64, end_ledger: u64)
    requires
        forall|i: int| 0 <= i < events.len() ==> (#[trigger] events[i]).ledger >= start_ledger,
    ensures
        events.filter(|event: RpcEvent| event.ledger < end_ledger) == events.filter(
            |event: RpcEvent| start_ledger <= event.ledger < end_ledger,
        ),
    decreases events.len(),
{
    reveal(Seq::filter);
    if events.len() > 0 {
        lemma_filter_from_start(events.drop_last(), start_ledger, end_ledger);
    }
}

proof fn lemma_page_fetched(
    service: EventService,
    start_ledger: u64,
    end_ledger: u64,
    limit: usize,
    first: nat,
    pager: EventPagerView,
    p: nat,
    page: Seq<RpcEvent>,
    cursor: Seq<char>,
)
    requires
        service.honest(start_ledger, end_ledger, limit, first),
        fetched_up_to(service, start_ledger, end_ledger, limit, first, pager, p),
        page == service.events.subrange(
            p as int,
            page_end(service.events.len(), p, limit) as int,
        ),
        cursor == (service.cursors)(page_end(service.events.len(), p, limit)),
    ensures
        fetched_up_to(
            service,
            start_ledger,
            end_ledger,
            limit,
            first,
            pager.after_page(page, cursor),
            page_end(service.events.len(), p, limit),
        ),
{
    let all = service.events;
    let fits = |event: RpcEvent| start_ledger <= event.ledger < end_ledger;
    let q = page_end(all.len(), p, limit);
    let after = pager.after_page(page, cursor);
    lemma_filter_from_start(page, start_ledger, end_ledger);
    assert(page.filter(|event: RpcEvent| event.ledger < end_ledger) == page.filter(fits));
    assert(crate::fetch::kept(page, end_ledger) == page.filter(
        |event: RpcEvent| event.ledger < end_ledger,
    )) by {
        lemma_same_filter(page, end_ledger);
    }
    assert(all.subrange(0, q as int) =~= all.subrange(0, p as int) + page);
    Seq::filter_distributes_over_add(all.subrange(0, p as int), page, fits);
    assert(after.events == in_ledgers(service.events.subrange(0, q as int), start_ledger, end_ledger));
    assert(cursor.len() > 0);
    let rest = all.subrange(q as int, all.len() as int);
    assert(all =~= all.subrange(0, q as int) + rest);
    Seq::filter_distributes_over_add(all.subrange(0, q as int), rest, fits);
    if after.next is None {
        if page.len() < limit {
            assert(rest =~= Seq::empty());
        } else {
            let k = choose|k: int|
                0 <= k < page.len() && !crate::fetch::in_range(#[trigger] page[k], end_ledger);
            assert forall|i: int| 0 <= i < rest.len() implies !(start_ledger <= (
            #[trigger] rest[i]).ledger < end_ledger) by {
                let (a, b) = (all[p + k], all[q + i]);
                assert(page[k] == a);
                assert(rest[i] == b);
            }
        }
        lemma_filter_none(rest, start_ledger, end_ledger);
        assert(after.events + Seq::<RpcEvent>::empty() =~= after.events);
    }
}

proof fn lemma_same_filter(page: Seq<RpcEvent>, end_ledger: u64)
    ensures
        crate::fetch::kept(page, end_ledger) == page.filter(
            |event: RpcEvent| event.ledger < end_ledger,
        ),
    decreases page.len(),
{
    reveal(Seq::filter);
    if page.len() > 0 {
        lemma_same_filter(page.drop_last(), end_ledger);
    }
}

proof fn lemma_events_followed(
    service: EventService,
    start_ledger: u64,
    end_ledger: u64,
    limit: usize,
    pagers: Seq<EventPager>,
    starts: Seq<PageStart>,
    first: nat,
    k: nat,
) -> (p: nat)
    requires
        service.honest(start_ledger, end_ledger, limit, first),
        service.followed(start_ledger, end_ledger, limit, pagers, starts),
        k <= starts.len(),
    ensures
        fetched_up_to(service, start_ledger, end_ledger, limit, first, pagers[k as int]@, p),
    decreases k,
{
    if k == 0 {
        let front = service.events.subrange(0, first as int);
        lemma_filter_none(front, start_ledger, end_ledger);
        first
    } else {
        let j = (k - 1) as nat;
        let p = lemma_events_followed(
            service,
            start_ledger,
            end_ledger,
            limit,
            pagers,
            starts,
            first,
            j,
        );
        let start = starts[j as int];
        assert(service.answers(pagers[j as int], start, pagers[j as int + 1]));
        let (page, cursor) = (service.answer)(start@);
        match start@ {
            PageStartView::Range { .. } => {},
            PageStartView::Cursor(at) => {
                assert(service.is_page(
                    (service.answer)(PageStartView::Cursor((service.cursors)(p))),
                    p,
                    limit,
                ));
            },
        }
        lemma_page_fetched(
            service,
            start_ledger,
            end_ledger,
            limit,
            first,
            pagers[j as int]@,
            p,
            page@,
            cursor@,
        );
        page_end(service.events.len(), p, limit)
    }
}

/// Events that stand in order are left as they are.
proof fn lemma_in_order_stays(events: Seq<RpcEvent>, n: nat)
    requires
        in_order_of_ids(events),
        n <= events.len(),
    ensures
        positions(places(events), n) == Seq::new(n, |i: int| i),
    decreases n,
{
    let list = places(events);
    if n == 0 {
        assert(positions(list, 0) =~= Seq::new(0, |i: int| i));
    } else {
        let m = (n - 1) as nat;
        lemma_in_order_stays(events, m);
        let front = positions(list, m);
        if m > 0 {
            assert(list[front[m - 1]] == events[m - 1].place());
            assert(list[n - 1] == events[n - 1].place());
            let (a, b) = (events[m - 1], events[n - 1]);
            assert(!place_before(b.place(), a.place()));
        }
        assert(slot(list, front, list[n - 1], m) == m);
        assert(front.insert(m as int, n - 1) =~= Seq::new(n, |i: int| i));
    }
}

/// Fetching the pages of a service that reports the events of the chain until no more
/// are asked for gives every event of the ledgers of the range, and no other, in
/// order, however many pages that takes.
pub proof fn following_the_pages_fetches_the_whole_range(
    service: EventService,
    start_ledger: u64,
    end_ledger: u64,
    limit: usize,
    pagers: Seq<EventPager>,
    starts: Seq<PageStart>,
    first: nat,
    none: Option<PageStart>,
    out: Vec<RpcEvent>,
)
    requires
        service.honest(start_ledger, end_ledger, limit, first),
        service.followed(start_ledger, end_ledger, limit, pagers, starts),
        call_ensures(EventPager::next_page, (&pagers.last(),), none),
        none is None,
        call_ensures(EventPager::finish, (pagers.last(),), out),
    ensures
        out@ == in_ledgers(service.events, start_ledger, end_ledger),
{
    let p = lemma_events_followed(
        service,
        start_ledger,
        end_ledger,
        limit,
        pagers,
        starts,
        first,
        starts.len(),
    );
    let found = pagers.last()@.events;
    assert(found == in_ledgers(service.events, start_ledger, end_ledger));
    lemma_filter_in_order(service.events, start_ledger, end_ledger);
    lemma_in_order_stays(found, found.len());
    assert(out@ =~= found);
}

/// What is left of events that stand in order stands in order.
proof fn lemma_filter_in_order(events: Seq<RpcEvent>, start_ledger: u64, end_ledger: u64)
    requires
        in_order_of_ids(events),
    ensures
        in_order_of_ids(in_ledgers(events, start_ledger, end_ledger)),
        forall|i: int|
            0 <= i < in_ledgers(events, start_ledger, end_ledger).len() ==> events.contains(
                #[trigger] in_ledgers(events, start_ledger, end_ledger)[i],
            ),
    decreases events.len(),
{
    reveal(Seq::filter);
    let fits = |event: RpcEvent| start_ledger <= event.ledger < end_ledger;
    if events.len() > 0 {
        let front = events.drop_last();
        lemma_filter_in_order(front, start_ledger, end_ledger);
        let before = front.filter(fits);
        let all = events.filter(fits);
        assert forall|i: int| 0 <= i < all.len() implies events.contains(#[trigger] all[i]) by {
            if i < before.len() {
                assert(front.contains(before[i]));
                let k = choose|k: int| 0 <= k < front.len() && front[k] == before[i];
                assert(events[k] == all[i]);
            } else {
                assert(events[events.len() - 1] == all[i]);
            }
        }
        assert forall|i: int, j: int|
            #![trigger all[i], all[j]]
            0 <= i < j < all.len() implies {
            ||| all[i].ledger < all[j].ledger
            ||| all[i].ledger == all[j].ledger && !text_before(all[j].id@, all[i].id@)
        } by {
            if j < before.len() {
                assert(all[i] == before[i] && all[j] == before[j]);
            } else {
                assert(front.contains(before[i]));
                let k = choose|k: int| 0 <= k < front.len() && front[k] == before[i];
                assert(events[k] == all[i]);
                assert(events[events.len() - 1] == all[j]);
            }
        }
    }
}

/// Whatever the service reports, the fetched events come out each once and in order:
/// by ledger, and in a ledger by id.
pub proof fn fetched_events_come_out_in_order(
    pager: EventPager,
    out: Vec<RpcEvent>,
    events: Seq<RpcEvent>,
)
    requires
        pager@.events == events,
        call_ensures(EventPager::finish, (pager,), out),
    ensures
        in_order_of_ids(out@),
        exists|at: Seq<int>| #[trigger] all_positions(at, events.len()) && out@ == picked(events, at),
{
    let list = places(events);
    let at = ordered(list);
    sorting_is_a_stable_reordering(list);
    assert(all_positions(at, events.len()));
    assert forall|i: int, j: int|
        #![trigger out@[i], out@[j]]
        0 <= i < j < out@.len() implies {
        ||| out@[i].ledger < out@[j].ledger
        ||| out@[i].ledger == out@[j].ledger && !text_before(out@[j].id@, out@[i].id@)
    } by {
        assert(out@[i] == events[at[i]] && out@[j] == events[at[j]]);
        assert(list[at[i]] == events[at[i]].place());
        assert(list[at[j]] == events[at[j]].place());
    }
}

/// An answer that says that the service refused, or that holds no page, ends the reading
/// with that; so does a ledger of the range that is not decoded, with that ledger.
pub proof fn refusals_end_the_reading(
    pager: LedgerPager,
    response: GetLedgersResponse,
    out: Result<LedgerPager, FetchError>,
)
    requires
        call_ensures(LedgerPager::accept_response, (pager, response), out),
    ensures
        response.error matches Some(error) ==> (out matches Err(
            FetchError::Rpc { start_ledger, end_ledger, code, message },
        ) && start_ledger == pager@.start_ledger && end_ledger == pager@.end_ledger && code
            == error.code && message@ == error.message@),
        response.error is None && response.result is None ==> (out matches Err(error)
            && error is MissingResult),
        out matches Ok(after) ==> after@.start_ledger == pager@.start_ledger && after@.end_ledger
            == pager@.end_ledger && after@.limit == pager@.limit && after@.contract
            == pager@.contract,
        response.error is None ==> (response.result matches Some(page) ==> (
        page.ledgers@.len() > 0 && pager@.start_ledger <= page.ledgers@[0].sequence
            < pager@.end_ledger ==> (decoded_ledger(page.ledgers@[0].metadata_xdr@) matches Err(why)
            ==> (out matches Err(FetchError::Decode { ledger, error }) && ledger
            == page.ledgers@[0].sequence && error@ == why)))),
{
    if response.error is None && response.result is Some {
        let page = response.result->0;
        let ledgers = ledger_views(page.ledgers@);
        if page.ledgers@.len() > 0 {
            assert(ledgers[0] == page.ledgers@[0]@);
            reveal_with_fuel(gather_page, 2);
        }
    }
}

/// The events of the contract in a ledger are all read, where the ledger is in the range.
pub open spec fn is_readable(w: Wanted, ledger: ReportedLedger) -> bool {
    w.start_ledger <= ledger.sequence < w.end_ledger ==> (decoded_ledger(
        ledger.metadata_xdr,
    ) matches Ok(transactions) && search_outcome(
        Search { ledger: ledger.sequence, transactions, contract: w.contract },
    ).error is None)
}

proof fn lemma_page_is_readable(w: Wanted, found: Gathered, ledgers: Seq<ReportedLedger>, i: nat)
    requires
        found.error is None,
        i <= ledgers.len(),
    ensures
        gather_page(found, ledgers, w.start_ledger, w.end_ledger, w.contract, i).error is None
            <==> forall|k: int| i <= k < ledgers.len() ==> is_readable(w, #[trigger] ledgers[k]),
    decreases ledgers.len() - i,
{
    if i < ledgers.len() {
        let ledger = ledgers[i as int];
        let next = gather_ledger(found, ledger, w.start_ledger, w.end_ledger, w.contract);
        match decoded_ledger(ledger.metadata_xdr) {
            Ok(transactions) => {
                lemma_ledger_apart(
                    going(found.events),
                    ledger.sequence,
                    transactions,
                    w.contract,
                    0,
                );
            },
            Err(_) => {},
        }
        assert(next.error is None <==> is_readable(w, ledger));
        if next.error is None {
            lemma_page_is_readable(w, next, ledgers, i + 1);
        } else {
            reveal_with_fuel(gather_page, 2);
        }
    }
}

/// A page is taken if and only if every ledger of the range on it is decoded and every event
/// of the contract in it is read; otherwise the reading ends with an error.
pub proof fn pages_are_taken_where_they_are_readable(
    pager: LedgerPager,
    response: GetLedgersResponse,
    page: GetLedgersResult,
    out: Result<LedgerPager, FetchError>,
)
    requires
        response.error is None,
        response.result == Some(page),
        call_ensures(LedgerPager::accept_response, (pager, response), out),
    ensures
        out is Ok <==> forall|k: int|
            0 <= k < page.ledgers@.len() ==> is_readable(
                wanted(pager@),
                (#[trigger] page.ledgers@[k])@,
            ),
{
    let w = wanted(pager@);
    let ledgers = ledger_views(page.ledgers@);
    lemma_page_is_readable(w, Gathered { events: pager@.events, error: None }, ledgers, 0);
    assert forall|k: int| 0 <= k < ledgers.len() implies #[trigger] ledgers[k]
        == page.ledgers@[k]@ by {}
    if forall|k: int|
        0 <= k < page.ledgers@.len() ==> is_readable(w, (#[trigger] page.ledgers@[k])@) {
        assert forall|k: int| 0 <= k < ledgers.len() implies is_readable(
            w,
            #[trigger] ledgers[k],
        ) by {
            assert(is_readable(w, page.ledgers@[k]@));
        }
    }
    if forall|k: int| 0 <= k < ledgers.len() ==> is_readable(w, #[trigger] ledgers[k]) {
        assert forall|k: int| 0 <= k < page.ledgers@.len() implies is_readable(
            w,
            (#[trigger] page.ledgers@[k])@,
        ) by {
            assert(is_readable(w, ledgers[k]));
        }
    }
}

} // verus!
