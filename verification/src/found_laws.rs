//! What is found in a ledger: the tree events of the contract, all of them and no
//! others.
use vstd::prelude::*;

use crate::chain_laws::{
    all_incoming, earlier, incoming, ledger_events_are_in_chain_order, standing, Standing, Wanted,
};
use crate::encoding::TreeHash;
use crate::events::{FieldError, FieldFault, TreeEvent};
use crate::fetch::ReportedLedger;
use crate::ledger_events::{
    collect_ledger, collect_mixer_events_from_ledger_close_meta, collect_one, collect_operation,
    collect_operations, collect_soroban, collect_transaction, going, local_views, Collected,
    EventPlace, LocalEvent, LocalLedgerEvent,
};
use crate::ledger_meta::{decoded_ledger, EventData, LedgerEvents, TransactionTree};
use crate::scval_events::contract_tree_event;

verus! {

/// The contract event that stands at a place, if any.
pub open spec fn event_at(transactions: Seq<TransactionTree>, place: EventPlace) -> Option<
    EventData,
> {
    match place {
        EventPlace::Soroban { ledger: _, tx, event } => if tx < transactions.len() {
            match transactions[tx as int] {
                TransactionTree::Soroban(events) => if event < events.len() {
                    Some(events[event as int])
                } else {
                    None
                },
                _ => None,
            }
        } else {
            None
        },
        EventPlace::Operation { ledger: _, tx, op, event } => if tx < transactions.len() {
            match transactions[tx as int] {
                TransactionTree::Operations(operations) => if op < operations.len() && event
                    < operations[op as int].len() {
                    Some(operations[op as int][event as int])
                } else {
                    None
                },
                _ => None,
            }
        } else {
            None
        },
    }
}

/// A ledger that is searched for the events of a contract.
pub struct Search {
    pub ledger: u32,
    pub transactions: Seq<TransactionTree>,
    pub contract: Seq<u8>,
}

impl Search {
    /// An event of the contract stands at a place of the ledger, and is read so.
    pub open spec fn reads(
        self,
        place: EventPlace,
        parsed: Result<Option<TreeEvent>, FieldFault>,
    ) -> bool {
        &&& standing(place).ledger == self.ledger
        &&& event_at(self.transactions, place) matches Some(event) && {
            &&& event.contract_id == Some(self.contract)
            &&& contract_tree_event(event) == parsed
        }
    }

    /// The event is one of the contract's tree events, under the id of its place.
    pub open spec fn is_emitted(self, event: LocalEvent, place: EventPlace) -> bool {
        &&& event.id == place.id()
        &&& event.ledger == self.ledger
        &&& self.reads(place, Ok(Some(event.event)))
    }

    /// The event is one of the contract's tree events.
    pub open spec fn emits(self, event: LocalEvent) -> bool {
        exists|place: EventPlace| #[trigger] self.is_emitted(event, place)
    }

    /// Each event is one of the contract's tree events.
    pub open spec fn only_emitted(self, events: Seq<LocalEvent>) -> bool {
        forall|i: int| 0 <= i < events.len() ==> self.emits(#[trigger] events[i])
    }

    /// The event at a place, where it is one of the contract's, was read, and where it
    /// is a tree event, it is among those found.
    pub open spec fn is_found(self, events: Seq<LocalEvent>, place: EventPlace) -> bool {
        match event_at(self.transactions, place) {
            Some(event) => event.contract_id == Some(self.contract) ==> match contract_tree_event(
                event,
            ) {
                Ok(Some(parsed)) => exists|i: int|
                    0 <= i < events.len() && (#[trigger] events[i]).id == place.id()
                        && events[i].ledger == self.ledger && events[i].event == parsed,
                Ok(None) => true,
                Err(_) => false,
            },
            None => true,
        }
    }

    /// All events before `next` were found.
    spec fn found_up_to(self, events: Seq<LocalEvent>, next: Standing) -> bool {
        forall|place: EventPlace|
            standing(place).ledger == self.ledger && earlier(standing(place), next)
                ==> #[trigger] self.is_found(events, place)
    }

    /// How a search stands that has come to `next`.
    spec fn came_to(self, found: Collected, next: Standing) -> bool {
        &&& self.only_emitted(found.events)
        &&& match found.error {
            None => self.found_up_to(found.events, next),
            Some(fault) => exists|place: EventPlace|
                #[trigger] self.reads(place, Err(fault)) && self.found_up_to(
                    found.events,
                    standing(place),
                ),
        }
    }
}

/// The search goes past one contract event.
proof fn lemma_one(
    search: Search,
    found: Collected,
    place: EventPlace,
    event: EventData,
    next: Standing,
)
    requires
        search.came_to(found, standing(place)),
        found.error is None,
        standing(place).ledger == search.ledger,
        event_at(search.transactions, place) == Some(event),
        forall|q: EventPlace|
            standing(q).ledger == search.ledger && earlier(standing(q), next) && !earlier(
                standing(q),
                standing(place),
            ) && q != place ==> (#[trigger] event_at(search.transactions, q)) is None,
    ensures
        search.came_to(
            collect_one(found, search.ledger, place.id(), event, search.contract),
            next,
        ),
{
    let after = collect_one(found, search.ledger, place.id(), event, search.contract);
    let n = found.events.len() as int;
    assert forall|i: int| 0 <= i < after.events.len() implies search.emits(
        #[trigger] after.events[i],
    ) by {
        if i < n {
            assert(search.emits(found.events[i]));
        } else {
            assert(search.is_emitted(after.events[i], place));
        }
    }
    match after.error {
        None => {
            assert forall|q: EventPlace|
                standing(q).ledger == search.ledger && earlier(standing(q), next)
                    implies #[trigger] search.is_found(after.events, q) by {
                if earlier(standing(q), standing(place)) {
                    assert(search.is_found(found.events, q));
                    lemma_still_found(search, found.events, after.events, q);
                } else if q == place {
                    if after.events.len() > n {
                        assert(after.events[n].id == place.id());
                    }
                } else {
                    assert(event_at(search.transactions, q) is None);
                }
            }
        },
        Some(fault) => {
            assert(search.reads(place, Err(fault)));
        },
    }
}

/// What was found stays found.
proof fn lemma_still_found(
    search: Search,
    before: Seq<LocalEvent>,
    after: Seq<LocalEvent>,
    place: EventPlace,
)
    requires
        search.is_found(before, place),
        before.len() <= after.len(),
        forall|i: int| 0 <= i < before.len() ==> #[trigger] before[i] == after[i],
    ensures
        search.is_found(after, place),
{
    match event_at(search.transactions, place) {
        Some(event) => {
            if event.contract_id == Some(search.contract) {
                match contract_tree_event(event) {
                    Ok(Some(parsed)) => {
                        let i = choose|i: int|
                            0 <= i < before.len() && (#[trigger] before[i]).id == place.id()
                                && before[i].ledger == search.ledger && before[i].event == parsed;
                        assert(after[i].id == place.id());
                    },
                    _ => {},
                }
            }
        },
        None => {},
    }
}

/// The search passes over places where nothing stands.
proof fn lemma_nothing_between(search: Search, found: Collected, here: Standing, next: Standing)
    requires
        search.came_to(found, here),
        forall|q: EventPlace|
            standing(q).ledger == search.ledger && earlier(standing(q), next) && !earlier(
                standing(q),
                here,
            ) ==> (#[trigger] event_at(search.transactions, q)) is None,
    ensures
        search.came_to(found, next),
{
    if found.error is None {
        assert forall|q: EventPlace|
            standing(q).ledger == search.ledger && earlier(standing(q), next)
                implies #[trigger] search.is_found(found.events, q) by {
            if !earlier(standing(q), here) {
                assert(event_at(search.transactions, q) is None);
            }
        }
    }
}

proof fn lemma_soroban(search: Search, found: Collected, tx: nat, events: Seq<EventData>, i: nat)
    requires
        tx < search.transactions.len(),
        search.transactions[tx as int] == TransactionTree::Soroban(events),
        search.came_to(found, Standing { ledger: search.ledger as nat, tx, op: 0, event: i }),
    ensures
        search.came_to(
            collect_soroban(found, search.ledger, tx, events, search.contract, i),
            Standing { ledger: search.ledger as nat, tx: tx + 1, op: 0, event: 0 },
        ),
    decreases events.len() - i,
{
    let here = Standing { ledger: search.ledger as nat, tx, op: 0, event: i };
    let end = Standing { ledger: search.ledger as nat, tx: tx + 1, op: 0, event: 0 };
    if found.error is None {
        if i >= events.len() {
            lemma_nothing_between(search, found, here, end);
        } else {
            let place = EventPlace::Soroban { ledger: search.ledger as nat, tx, event: i };
            let event = events[i as int];
            let next = collect_one(found, search.ledger, place.id(), event, search.contract);
            lemma_one(search, found, place, event, Standing { event: i + 1, ..here });
            lemma_soroban(search, next, tx, events, i + 1);
        }
    }
}

proof fn lemma_operation(
    search: Search,
    found: Collected,
    tx: nat,
    operations: Seq<Seq<EventData>>,
    op: nat,
    i: nat,
)
    requires
        tx < search.transactions.len(),
        search.transactions[tx as int] == TransactionTree::Operations(operations),
        op < operations.len(),
        search.came_to(found, Standing { ledger: search.ledger as nat, tx, op, event: i }),
    ensures
        search.came_to(
            collect_operation(
                found,
                search.ledger,
                tx,
                op,
                operations[op as int],
                search.contract,
                i,
            ),
            Standing { ledger: search.ledger as nat, tx, op: op + 1, event: 0 },
        ),
    decreases operations[op as int].len() - i,
{
    let here = Standing { ledger: search.ledger as nat, tx, op, event: i };
    let end = Standing { ledger: search.ledger as nat, tx, op: op + 1, event: 0 };
    let events = operations[op as int];
    if found.error is None {
        if i >= events.len() {
            lemma_nothing_between(search, found, here, end);
        } else {
            let place = EventPlace::Operation { ledger: search.ledger as nat, tx, op, event: i };
            let event = events[i as int];
            let next = collect_one(found, search.ledger, place.id(), event, search.contract);
            lemma_one(search, found, place, event, Standing { event: i + 1, ..here });
            lemma_operation(search, next, tx, operations, op, i + 1);
        }
    }
}

proof fn lemma_operations(
    search: Search,
    found: Collected,
    tx: nat,
    operations: Seq<Seq<EventData>>,
    op: nat,
)
    requires
        tx < search.transactions.len(),
        search.transactions[tx as int] == TransactionTree::Operations(operations),
        search.came_to(found, Standing { ledger: search.ledger as nat, tx, op, event: 0 }),
    ensures
        search.came_to(
            collect_operations(found, search.ledger, tx, operations, search.contract, op),
            Standing { ledger: search.ledger as nat, tx: tx + 1, op: 0, event: 0 },
        ),
    decreases operations.len() - op,
{
    let here = Standing { ledger: search.ledger as nat, tx, op, event: 0 };
    let end = Standing { ledger: search.ledger as nat, tx: tx + 1, op: 0, event: 0 };
    if found.error is None {
        if op >= operations.len() {
            lemma_nothing_between(search, found, here, end);
        } else {
            let next = collect_operation(
                found,
                search.ledger,
                tx,
                op,
                operations[op as int],
                search.contract,
                0,
            );
            lemma_operation(search, found, tx, operations, op, 0);
            lemma_operations(search, next, tx, operations, op + 1);
        }
    }
}

proof fn lemma_ledger(search: Search, found: Collected, tx: nat)
    requires
        search.came_to(found, Standing { ledger: search.ledger as nat, tx, op: 0, event: 0 }),
    ensures
        search.came_to(
            collect_ledger(found, search.ledger, search.transactions, search.contract, tx),
            Standing { ledger: search.ledger as nat + 1, tx: 0, op: 0, event: 0 },
        ),
    decreases search.transactions.len() - tx,
{
    let here = Standing { ledger: search.ledger as nat, tx, op: 0, event: 0 };
    let end = Standing { ledger: search.ledger as nat + 1, tx: 0, op: 0, event: 0 };
    if found.error is None {
        if tx >= search.transactions.len() {
            lemma_nothing_between(search, found, here, end);
        } else {
            let transaction = search.transactions[tx as int];
            let next = collect_transaction(
                found,
                search.ledger,
                tx,
                transaction,
                search.contract,
            );
            match transaction {
                TransactionTree::Soroban(events) => {
                    lemma_soroban(search, found, tx, events, 0);
                },
                TransactionTree::Operations(operations) => {
                    lemma_operations(search, found, tx, operations, 0);
                },
                TransactionTree::Other => {
                    lemma_nothing_between(search, found, here, Standing { tx: tx + 1, ..here });
                },
            }
            lemma_ledger(search, next, tx + 1);
        }
    }
}

/// What a search of a ledger came to.
pub open spec fn search_outcome(search: Search) -> Collected {
    collect_ledger(
        going(Seq::empty()),
        search.ledger,
        search.transactions,
        search.contract,
        0,
    )
}

/// What is found in a ledger is exactly the contract's tree events, of each kind: every
/// one that stands in the ledger is found, once, under the id of its place and as it
/// reads, and nothing else is. A search fails if and only if an event of the contract
/// is not read, with the error of the first such event.
pub proof fn found_events_are_exactly_the_tree_events(search: Search)
    ensures
        search.only_emitted(search_outcome(search).events),
        search_outcome(search).error is None ==> forall|place: EventPlace|
            standing(place).ledger == search.ledger ==> #[trigger] search.is_found(
                search_outcome(search).events,
                place,
            ),
        forall|i: int, j: int|
            0 <= i < j < search_outcome(search).events.len() ==> (
            #[trigger] search_outcome(search).events[i]).id != (
            #[trigger] search_outcome(search).events[j]).id,
        search_outcome(search).error matches Some(fault) ==> exists|place: EventPlace|
            {
                &&& #[trigger] search.reads(place, Err(fault))
                &&& forall|q: EventPlace|
                    standing(q).ledger == search.ledger && earlier(standing(q), standing(place))
                        ==> #[trigger] search.is_found(search_outcome(search).events, q)
            },
        (forall|place: EventPlace, fault: FieldFault| !(#[trigger] search.reads(place, Err(fault))))
            ==> search_outcome(search).error is None,
{
    let none = going(Seq::empty());
    let start = Standing { ledger: search.ledger as nat, tx: 0, op: 0, event: 0 };
    let end = Standing { ledger: search.ledger as nat + 1, tx: 0, op: 0, event: 0 };
    assert(search.came_to(none, start));
    lemma_ledger(search, none, 0);
    let out = search_outcome(search);
    match out.error {
        None => {
            assert forall|place: EventPlace|
                standing(place).ledger == search.ledger implies #[trigger] search.is_found(
                out.events,
                place,
            ) by {
                assert(earlier(standing(place), end));
            }
        },
        Some(fault) => {
            let place = choose|place: EventPlace|
                #[trigger] search.reads(place, Err(fault)) && search.found_up_to(
                    out.events,
                    standing(place),
                );
            assert(search.reads(place, Err(fault)));
        },
    }
    ledger_events_are_in_chain_order(search.ledger, search.transactions, search.contract);
    let listed = all_incoming(out.events);
    assert forall|i: int, j: int| 0 <= i < j < out.events.len() implies (
    #[trigger] out.events[i]).id != (#[trigger] out.events[j]).id by {
        assert(listed[i] == incoming(out.events[i]));
        assert(listed[j] == incoming(out.events[j]));
    }
}

/// A tree event of the contract, of whatever kind, is among the events that a ledger of
/// the range emits, under the id of its place and as it reads.
pub proof fn every_tree_event_is_emitted(
    w: Wanted,
    ledger: ReportedLedger,
    transactions: Seq<TransactionTree>,
    place: EventPlace,
    parsed: TreeEvent,
)
    requires
        w.start_ledger <= ledger.sequence < w.end_ledger,
        decoded_ledger(ledger.metadata_xdr) == Ok::<Seq<TransactionTree>, Seq<char>>(transactions),
        ({
            let search = Search { ledger: ledger.sequence, transactions, contract: w.contract };
            &&& search.reads(place, Ok(Some(parsed)))
            &&& search_outcome(search).error is None
        }),
    ensures
        exists|i: int|
            0 <= i < w.emitted(ledger).len() && (#[trigger] w.emitted(ledger)[i]).id == place.id()
                && w.emitted(ledger)[i].ledger == ledger.sequence && w.emitted(ledger)[i].event
                == parsed,
{
    let search = Search { ledger: ledger.sequence, transactions, contract: w.contract };
    found_events_are_exactly_the_tree_events(search);
    let events = search_outcome(search).events;
    assert(search.is_found(events, place));
    let i = choose|i: int|
        0 <= i < events.len() && (#[trigger] events[i]).id == place.id() && events[i].ledger
            == ledger.sequence && events[i].event == parsed;
    assert(w.emitted(ledger)[i] == incoming(events[i]));
}

/// Going through a ledger adds every tree event of the contract to the list, of whatever
/// kind, under the id of its place and as it reads, adds nothing else, and fails if and
/// only if an event of the contract is not read.
pub proof fn ledger_gives_its_tree_events(
    ledger: u32,
    meta: &LedgerEvents,
    contract: &TreeHash,
    out: &mut Vec<LocalLedgerEvent>,
    done: Result<(), FieldError>,
    place: EventPlace,
    parsed: TreeEvent,
)
    requires
        old(out)@.len() == 0,
        call_ensures(
            collect_mixer_events_from_ledger_close_meta,
            (ledger, meta, contract, out),
            done,
        ),
    ensures
        ({
            let search = Search { ledger, transactions: meta@, contract: contract@ };
            &&& done is Ok && search.reads(place, Ok(Some(parsed))) ==> exists|i: int|
                0 <= i < final(out)@.len() && (#[trigger] final(out)@[i]).id@ == place.id()
                    && final(out)@[i].ledger == ledger && final(out)@[i].parsed@ == parsed
            &&& forall|i: int|
                0 <= i < final(out)@.len() ==> search.emits((#[trigger] final(out)@[i])@)
            &&& done is Err <==> exists|q: EventPlace, fault: FieldFault| #[trigger]
                search.reads(q, Err(fault))
        }),
{
    let search = Search { ledger, transactions: meta@, contract: contract@ };
    found_events_are_exactly_the_tree_events(search);
    let events = search_outcome(search).events;
    assert(local_views(old(out)@) =~= Seq::empty());
    assert(local_views(final(out)@) == events);
    assert forall|i: int| 0 <= i < final(out)@.len() implies search.emits(
        (#[trigger] final(out)@[i])@,
    ) by {
        assert(events[i] == final(out)@[i]@);
    }
    if done is Ok {
        if search.reads(place, Ok(Some(parsed))) {
            assert(search.is_found(events, place));
            let i = choose|i: int|
                0 <= i < events.len() && (#[trigger] events[i]).id == place.id()
                    && events[i].ledger == ledger && events[i].event == parsed;
            assert(events[i] == final(out)@[i]@);
        }
        assert forall|q: EventPlace, fault: FieldFault| !(#[trigger] search.reads(
            q,
            Err(fault),
        )) by {
            if search.reads(q, Err(fault)) {
                assert(search.is_found(events, q));
            }
        }
    }
}

} // verus!
