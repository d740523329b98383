//! What reading ledgers comes to: the events of the chain, in its order.
use vstd::prelude::*;
use vstd::seq_lib::*;
use vstd::set_lib::*;

use crate::apply_laws::{
    aligned, all_fit, all_leaves, events_in_order_rebuild_the_tree, handled_all, Incoming, World,
};
use crate::fetch::{
    by_ledger, gather_ledger, gather_page, ledger_views, ledgers_keep_their_order, local_places,
    FetchFault, Gathered, GetLedgersResponse, LedgerPagerView, ReportedLedger,
};
use crate::ledger_events::{
    collect_ledger, collect_one, collect_operation, collect_operations, collect_soroban,
    collect_transaction, event_ids_are_distinct, going, ledger_events_are_appended,
    operation_event_id, soroban_event_id, Collected, EventPlace, LocalEvent,
};
use crate::ledger_meta::{decoded_ledger, EventData, TransactionTree};
use crate::order::{
    all_positions, lemma_positions, lemma_slot_range, lemma_text_irreflexive, picked, place_before,
    positions, slot, Place,
};

verus! {

/// Where an event stands on the chain. An event of a transaction as a whole stands
/// where those of its first operation would.
pub struct Standing {
    pub ledger: nat,
    pub tx: nat,
    pub op: nat,
    pub event: nat,
}

/// `a` stands before `b`: by ledger, transaction, operation and event, as numbers.
pub open spec fn earlier(a: Standing, b: Standing) -> bool {
    ||| a.ledger < b.ledger
    ||| a.ledger == b.ledger && a.tx < b.tx
    ||| a.ledger == b.ledger && a.tx == b.tx && a.op < b.op
    ||| a.ledger == b.ledger && a.tx == b.tx && a.op == b.op && a.event < b.event
}

/// Where the event at a place stands.
pub open spec fn standing(place: EventPlace) -> Standing {
    match place {
        EventPlace::Soroban { ledger, tx, event } => Standing { ledger, tx, op: 0, event },
        EventPlace::Operation { ledger, tx, op, event } => Standing { ledger, tx, op, event },
    }
}

/// Where the event that an id belongs to stands.
pub open spec fn standing_of(id: Seq<char>) -> Standing {
    standing(choose|place: EventPlace| #[trigger] place.id() == id)
}

/// The events stand in the order of the chain, each in the ledger that it names.
pub open spec fn in_chain_order(events: Seq<Incoming>) -> bool {
    &&& forall|i: int|
        0 <= i < events.len() ==> standing_of((#[trigger] events[i]).id).ledger == events[i].ledger
    &&& forall|i: int, j: int|
        0 <= i < j < events.len() ==> earlier(
            standing_of((#[trigger] events[i]).id),
            standing_of((#[trigger] events[j]).id),
        )
}

/// An event that was found in a ledger, as it comes in.
pub open spec fn incoming(event: LocalEvent) -> Incoming {
    Incoming { id: event.id, ledger: event.ledger as u64, event: event.event }
}

/// Events that were found in ledgers, as they come in.
pub open spec fn all_incoming(events: Seq<LocalEvent>) -> Seq<Incoming> {
    events.map_values(|event: LocalEvent| incoming(event))
}

/// The id of a place belongs to that place.
proof fn lemma_standing_of(place: EventPlace)
    ensures
        standing_of(place.id()) == standing(place),
{
    let found = choose|p: EventPlace| #[trigger] p.id() == place.id();
    event_ids_are_distinct(found, place);
}

/// The events stand in the order of the chain, all before `next`.
spec fn up_to(events: Seq<LocalEvent>, next: Standing) -> bool {
    &&& in_chain_order(all_incoming(events))
    &&& forall|i: int|
        0 <= i < events.len() ==> earlier(standing_of((#[trigger] events[i]).id), next)
}

/// Going past one contract event keeps the order.
proof fn lemma_one_in_order(
    found: Collected,
    ledger: u32,
    place: EventPlace,
    event: EventData,
    contract: Seq<u8>,
    next: Standing,
)
    requires
        up_to(found.events, standing(place)),
        standing(place).ledger == ledger,
        earlier(standing(place), next),
    ensures
        up_to(collect_one(found, ledger, place.id(), event, contract).events, next),
{
    lemma_standing_of(place);
    let after = collect_one(found, ledger, place.id(), event, contract).events;
    let (a, b) = (all_incoming(found.events), all_incoming(after));
    assert forall|i: int| 0 <= i < b.len() implies standing_of((#[trigger] b[i]).id).ledger
        == b[i].ledger by {
        if i < a.len() {
            assert(b[i] == a[i]);
        }
    }
    assert forall|i: int, j: int| 0 <= i < j < b.len() implies earlier(
        standing_of((#[trigger] b[i]).id),
        standing_of((#[trigger] b[j]).id),
    ) by {
        assert(b[i] == a[i]);
        if j < a.len() {
            assert(b[j] == a[j]);
        } else {
            assert(found.events[i].id == b[i].id);
        }
    }
    assert forall|i: int| 0 <= i < after.len() implies earlier(
        standing_of((#[trigger] after[i]).id),
        next,
    ) by {
        if i < found.events.len() {
            assert(after[i] == found.events[i]);
        }
    }
}

/// What stands before one place stands before a later one.
proof fn lemma_further(events: Seq<LocalEvent>, next: Standing, later: Standing)
    requires
        up_to(events, next),
        earlier(next, later),
    ensures
        up_to(events, later),
{
}

proof fn lemma_soroban_in_order(
    found: Collected,
    ledger: u32,
    tx: nat,
    events: Seq<EventData>,
    contract: Seq<u8>,
    i: nat,
)
    requires
        up_to(found.events, Standing { ledger: ledger as nat, tx, op: 0, event: i }),
    ensures
        up_to(
            collect_soroban(found, ledger, tx, events, contract, i).events,
            Standing { ledger: ledger as nat, tx: tx + 1, op: 0, event: 0 },
        ),
    decreases events.len() - i,
{
    let here = Standing { ledger: ledger as nat, tx, op: 0, event: i };
    if i >= events.len() || found.error is Some {
        lemma_further(
            found.events,
            here,
            Standing { ledger: ledger as nat, tx: tx + 1, op: 0, event: 0 },
        );
    } else {
        let place = EventPlace::Soroban { ledger: ledger as nat, tx, event: i };
        let next = collect_one(found, ledger, place.id(), events[i as int], contract);
        lemma_one_in_order(
            found,
            ledger,
            place,
            events[i as int],
            contract,
            Standing { event: i + 1, ..here },
        );
        lemma_soroban_in_order(next, ledger, tx, events, contract, i + 1);
    }
}

proof fn lemma_operation_in_order(
    found: Collected,
    ledger: u32,
    tx: nat,
    op: nat,
    events: Seq<EventData>,
    contract: Seq<u8>,
    i: nat,
)
    requires
        up_to(found.events, Standing { ledger: ledger as nat, tx, op, event: i }),
    ensures
        up_to(
            collect_operation(found, ledger, tx, op, events, contract, i).events,
            Standing { ledger: ledger as nat, tx, op: op + 1, event: 0 },
        ),
    decreases events.len() - i,
{
    let here = Standing { ledger: ledger as nat, tx, op, event: i };
    if i >= events.len() || found.error is Some {
        lemma_further(
            found.events,
            here,
            Standing { ledger: ledger as nat, tx, op: op + 1, event: 0 },
        );
    } else {
        let place = EventPlace::Operation { ledger: ledger as nat, tx, op, event: i };
        let next = collect_one(found, ledger, place.id(), events[i as int], contract);
        lemma_one_in_order(
            found,
            ledger,
            place,
            events[i as int],
            contract,
            Standing { event: i + 1, ..here },
        );
        lemma_operation_in_order(next, ledger, tx, op, events, contract, i + 1);
    }
}

proof fn lemma_operations_in_order(
    found: Collected,
    ledger: u32,
    tx: nat,
    operations: Seq<Seq<EventData>>,
    contract: Seq<u8>,
    op: nat,
)
    requires
        up_to(found.events, Standing { ledger: ledger as nat, tx, op, event: 0 }),
    ensures
        up_to(
            collect_operations(found, ledger, tx, operations, contract, op).events,
            Standing { ledger: ledger as nat, tx: tx + 1, op: 0, event: 0 },
        ),
    decreases operations.len() - op,
{
    if op >= operations.len() || found.error is Some {
        lemma_further(
            found.events,
            Standing { ledger: ledger as nat, tx, op, event: 0 },
            Standing { ledger: ledger as nat, tx: tx + 1, op: 0, event: 0 },
        );
    } else {
        let next = collect_operation(found, ledger, tx, op, operations[op as int], contract, 0);
        lemma_operation_in_order(found, ledger, tx, op, operations[op as int], contract, 0);
        lemma_operations_in_order(next, ledger, tx, operations, contract, op + 1);
    }
}

proof fn lemma_ledger_in_order(
    found: Collected,
    ledger: u32,
    transactions: Seq<TransactionTree>,
    contract: Seq<u8>,
    tx: nat,
)
    requires
        up_to(found.events, Standing { ledger: ledger as nat, tx, op: 0, event: 0 }),
    ensures
        up_to(
            collect_ledger(found, ledger, transactions, contract, tx).events,
            Standing { ledger: ledger as nat + 1, tx: 0, op: 0, event: 0 },
        ),
    decreases transactions.len() - tx,
{
    let here = Standing { ledger: ledger as nat, tx, op: 0, event: 0 };
    if tx >= transactions.len() || found.error is Some {
        lemma_further(
            found.events,
            here,
            Standing { ledger: ledger as nat + 1, tx: 0, op: 0, event: 0 },
        );
    } else {
        let next = collect_transaction(found, ledger, tx, transactions[tx as int], contract);
        match transactions[tx as int] {
            TransactionTree::Soroban(events) => {
                lemma_soroban_in_order(found, ledger, tx, events, contract, 0);
            },
            TransactionTree::Operations(operations) => {
                lemma_operations_in_order(found, ledger, tx, operations, contract, 0);
            },
            TransactionTree::Other => {
                lemma_further(found.events, here, Standing { tx: tx + 1, ..here });
            },
        }
        lemma_ledger_in_order(next, ledger, transactions, contract, tx + 1);
    }
}

/// The events of a ledger are found in the order of the chain: by transaction,
/// operation and event, as numbers.
pub proof fn ledger_events_are_in_chain_order(
    ledger: u32,
    transactions: Seq<TransactionTree>,
    contract: Seq<u8>,
)
    ensures
        in_chain_order(
            all_incoming(
                collect_ledger(going(Seq::empty()), ledger, transactions, contract, 0).events,
            ),
        ),
{
    lemma_ledger_in_order(going(Seq::empty()), ledger, transactions, contract, 0);
}

/// What a search came to that had found events before, against the same search on
/// its own: the same error, and the same events behind those found before.
pub(crate) open spec fn apart(found: Collected, after: Collected, alone: Collected) -> bool {
    &&& after.error == alone.error
    &&& all_incoming(after.events) == all_incoming(found.events) + all_incoming(alone.events)
}

proof fn lemma_apart_steps(
    found: Collected,
    next: Collected,
    next_alone: Collected,
    after: Collected,
    after_alone: Collected,
    rest: Collected,
)
    requires
        apart(found, next, next_alone),
        apart(next, after, rest),
        apart(next_alone, after_alone, rest),
    ensures
        apart(found, after, after_alone),
{
    assert(all_incoming(after.events) =~= all_incoming(found.events) + all_incoming(
        after_alone.events,
    ));
}

proof fn lemma_apart_nothing(found: Collected)
    requires
        found.error is None,
    ensures
        apart(found, found, going(Seq::empty())),
{
    assert(all_incoming(found.events) =~= all_incoming(found.events) + all_incoming(Seq::empty()));
}

proof fn lemma_one_apart(
    found: Collected,
    ledger: u32,
    id: Seq<char>,
    event: EventData,
    contract: Seq<u8>,
)
    requires
        found.error is None,
    ensures
        apart(
            found,
            collect_one(found, ledger, id, event, contract),
            collect_one(going(Seq::empty()), ledger, id, event, contract),
        ),
{
    let after = collect_one(found, ledger, id, event, contract);
    let alone = collect_one(going(Seq::empty()), ledger, id, event, contract);
    assert(all_incoming(after.events) =~= all_incoming(found.events) + all_incoming(alone.events));
}

proof fn lemma_soroban_apart(
    found: Collected,
    ledger: u32,
    tx: nat,
    events: Seq<EventData>,
    contract: Seq<u8>,
    i: nat,
)
    requires
        found.error is None,
    ensures
        apart(
            found,
            collect_soroban(found, ledger, tx, events, contract, i),
            collect_soroban(going(Seq::empty()), ledger, tx, events, contract, i),
        ),
    decreases events.len() - i,
{
    let none = going(Seq::empty());
    if i >= events.len() {
        lemma_apart_nothing(found);
    } else {
        let id = soroban_event_id(ledger as nat, tx, i);
        let next = collect_one(found, ledger, id, events[i as int], contract);
        let alone = collect_one(none, ledger, id, events[i as int], contract);
        lemma_one_apart(found, ledger, id, events[i as int], contract);
        if next.error is None {
            lemma_soroban_apart(next, ledger, tx, events, contract, i + 1);
            lemma_soroban_apart(alone, ledger, tx, events, contract, i + 1);
            lemma_apart_steps(
                found,
                next,
                alone,
                collect_soroban(next, ledger, tx, events, contract, i + 1),
                collect_soroban(alone, ledger, tx, events, contract, i + 1),
                collect_soroban(none, ledger, tx, events, contract, i + 1),
            );
        } else {
            reveal_with_fuel(collect_soroban, 2);
        }
    }
}

proof fn lemma_operation_apart(
    found: Collected,
    ledger: u32,
    tx: nat,
    op: nat,
    events: Seq<EventData>,
    contract: Seq<u8>,
    i: nat,
)
    requires
        found.error is None,
    ensures
        apart(
            found,
            collect_operation(found, ledger, tx, op, events, contract, i),
            collect_operation(going(Seq::empty()), ledger, tx, op, events, contract, i),
        ),
    decreases events.len() - i,
{
    let none = going(Seq::empty());
    if i >= events.len() {
        lemma_apart_nothing(found);
    } else {
        let id = operation_event_id(ledger as nat, tx, op, i);
        let next = collect_one(found, ledger, id, events[i as int], contract);
        let alone = collect_one(none, ledger, id, events[i as int], contract);
        lemma_one_apart(found, ledger, id, events[i as int], contract);
        if next.error is None {
            lemma_operation_apart(next, ledger, tx, op, events, contract, i + 1);
            lemma_operation_apart(alone, ledger, tx, op, events, contract, i + 1);
            lemma_apart_steps(
                found,
                next,
                alone,
                collect_operation(next, ledger, tx, op, events, contract, i + 1),
                collect_operation(alone, ledger, tx, op, events, contract, i + 1),
                collect_operation(none, ledger, tx, op, events, contract, i + 1),
            );
        } else {
            reveal_with_fuel(collect_operation, 2);
        }
    }
}

proof fn lemma_operations_apart(
    found: Collected,
    ledger: u32,
    tx: nat,
    operations: Seq<Seq<EventData>>,
    contract: Seq<u8>,
    op: nat,
)
    requires
        found.error is None,
    ensures
        apart(
            found,
            collect_operations(found, ledger, tx, operations, contract, op),
            collect_operations(going(Seq::empty()), ledger, tx, operations, contract, op),
        ),
    decreases operations.len() - op,
{
    let none = going(Seq::empty());
    if op >= operations.len() {
        lemma_apart_nothing(found);
    } else {
        let events = operations[op as int];
        let next = collect_operation(found, ledger, tx, op, events, contract, 0);
        let alone = collect_operation(none, ledger, tx, op, events, contract, 0);
        lemma_operation_apart(found, ledger, tx, op, events, contract, 0);
        if next.error is None {
            lemma_operations_apart(next, ledger, tx, operations, contract, op + 1);
            lemma_operations_apart(alone, ledger, tx, operations, contract, op + 1);
            lemma_apart_steps(
                found,
                next,
                alone,
                collect_operations(next, ledger, tx, operations, contract, op + 1),
                collect_operations(alone, ledger, tx, operations, contract, op + 1),
                collect_operations(none, ledger, tx, operations, contract, op + 1),
            );
        } else {
            reveal_with_fuel(collect_operations, 2);
        }
    }
}

pub(crate) proof fn lemma_ledger_apart(
    found: Collected,
    ledger: u32,
    transactions: Seq<TransactionTree>,
    contract: Seq<u8>,
    tx: nat,
)
    requires
        found.error is None,
    ensures
        apart(
            found,
            collect_ledger(found, ledger, transactions, contract, tx),
            collect_ledger(going(Seq::empty()), ledger, transactions, contract, tx),
        ),
    decreases transactions.len() - tx,
{
    let none = going(Seq::empty());
    if tx >= transactions.len() {
        lemma_apart_nothing(found);
    } else {
        let transaction = transactions[tx as int];
        let next = collect_transaction(found, ledger, tx, transaction, contract);
        let alone = collect_transaction(none, ledger, tx, transaction, contract);
        match transaction {
            TransactionTree::Soroban(events) => {
                lemma_soroban_apart(found, ledger, tx, events, contract, 0);
            },
            TransactionTree::Operations(operations) => {
                lemma_operations_apart(found, ledger, tx, operations, contract, 0);
            },
            TransactionTree::Other => {
                lemma_apart_nothing(found);
            },
        }
        if next.error is None {
            lemma_ledger_apart(next, ledger, transactions, contract, tx + 1);
            lemma_ledger_apart(alone, ledger, transactions, contract, tx + 1);
            lemma_apart_steps(
                found,
                next,
                alone,
                collect_ledger(next, ledger, transactions, contract, tx + 1),
                collect_ledger(alone, ledger, transactions, contract, tx + 1),
                collect_ledger(none, ledger, transactions, contract, tx + 1),
            );
        } else {
            reveal_with_fuel(collect_ledger, 2);
        }
    }
}

/// The ledgers and the contract whose events are read.
pub struct Wanted {
    pub start_ledger: u64,
    pub end_ledger: u64,
    pub contract: Seq<u8>,
}

/// What a reading of ledgers is after.
pub open spec fn wanted(pager: LedgerPagerView) -> Wanted {
    Wanted {
        start_ledger: pager.start_ledger,
        end_ledger: pager.end_ledger,
        contract: pager.contract,
    }
}

impl Wanted {
    /// The events of the contract in a ledger of the range, in the order of the
    /// chain.
    pub open spec fn emitted(self, ledger: ReportedLedger) -> Seq<Incoming> {
        if self.start_ledger <= ledger.sequence < self.end_ledger {
            match decoded_ledger(ledger.metadata_xdr) {
                Ok(transactions) => all_incoming(
                    collect_ledger(
                        going(Seq::empty()),
                        ledger.sequence,
                        transactions,
                        self.contract,
                        0,
                    ).events,
                ),
                Err(_) => Seq::empty(),
            }
        } else {
            Seq::empty()
        }
    }

    /// The events of the contract in ledgers, from ledger to ledger.
    pub open spec fn all_emitted(self, ledgers: Seq<ReportedLedger>) -> Seq<Incoming>
        decreases ledgers.len(),
    {
        if ledgers.len() == 0 {
            Seq::empty()
        } else {
            self.emitted(ledgers[0]) + self.all_emitted(ledgers.drop_first())
        }
    }
}

pub(crate) proof fn lemma_all_emitted_add(w: Wanted, a: Seq<ReportedLedger>, b: Seq<ReportedLedger>)
    ensures
        w.all_emitted(a + b) == w.all_emitted(a) + w.all_emitted(b),
    decreases a.len(),
{
    if a.len() == 0 {
        assert(a + b =~= b);
    } else {
        assert((a + b).drop_first() =~= a.drop_first() + b);
        lemma_all_emitted_add(w, a.drop_first(), b);
        assert(w.all_emitted(a + b) =~= w.all_emitted(a) + w.all_emitted(b));
    }
}

pub(crate) proof fn lemma_page_emits(w: Wanted, found: Gathered, ledgers: Seq<ReportedLedger>, i: nat)
    requires
        i <= ledgers.len(),
        gather_page(found, ledgers, w.start_ledger, w.end_ledger, w.contract, i).error is None,
    ensures
        all_incoming(
            gather_page(found, ledgers, w.start_ledger, w.end_ledger, w.contract, i).events,
        ) == all_incoming(found.events) + w.all_emitted(
            ledgers.subrange(i as int, ledgers.len() as int),
        ),
    decreases ledgers.len() - i,
{
    let rest = ledgers.subrange(i as int, ledgers.len() as int);
    if i < ledgers.len() {
        let ledger = ledgers[i as int];
        let next = gather_ledger(found, ledger, w.start_ledger, w.end_ledger, w.contract);
        match decoded_ledger(ledger.metadata_xdr) {
            Ok(transactions) => {
                lemma_ledger_apart(
                    going(found.events),
                    ledger.sequence,
                    transactions,
                    w.contract,
                    0,
                );
            },
            Err(_) => {},
        }
        reveal_with_fuel(gather_page, 2);
        assert(next.error is None);
        assert(all_incoming(next.events) =~= all_incoming(found.events) + w.emitted(ledger));
        lemma_page_emits(w, next, ledgers, i + 1);
        assert(rest.drop_first() =~= ledgers.subrange(i as int + 1, ledgers.len() as int));
        assert(w.all_emitted(rest) == w.emitted(ledger) + w.all_emitted(rest.drop_first()));
        assert(all_incoming(next.events) + w.all_emitted(rest.drop_first()) =~= all_incoming(
            found.events,
        ) + w.all_emitted(rest));
    } else {
        assert(all_incoming(found.events) + w.all_emitted(rest) =~= all_incoming(found.events));
    }
}

/// The ledgers that an answer reports.
pub open spec fn reported(response: GetLedgersResponse) -> Seq<ReportedLedger> {
    match response.result {
        Some(page) => ledger_views(page.ledgers@),
        None => Seq::empty(),
    }
}

/// The ledgers that answers report, one answer after the other.
pub open spec fn all_reported(responses: Seq<GetLedgersResponse>) -> Seq<ReportedLedger>
    decreases responses.len(),
{
    if responses.len() == 0 {
        Seq::empty()
    } else {
        all_reported(responses.drop_last()) + reported(responses.last())
    }
}

/// The reading after answers, one after the other.
pub open spec fn read(pager: LedgerPagerView, responses: Seq<GetLedgersResponse>) -> Result<
    LedgerPagerView,
    FetchFault,
>
    decreases responses.len(),
{
    if responses.len() == 0 {
        Ok(pager)
    } else {
        match read(pager, responses.drop_last()) {
            Ok(before) => before.after_response(responses.last()),
            Err(error) => Err(error),
        }
    }
}

/// Reading adds exactly the events that the contract emitted in the ledgers of the
/// range that the answers report, in the order in which they report them.
pub proof fn reading_adds_what_ledgers_emit(
    pager: LedgerPagerView,
    responses: Seq<GetLedgersResponse>,
)
    requires
        read(pager, responses) is Ok,
    ensures
        wanted(read(pager, responses)->Ok_0) == wanted(pager),
        all_incoming(read(pager, responses)->Ok_0.events) == all_incoming(pager.events) + wanted(
            pager,
        ).all_emitted(all_reported(responses)),
    decreases responses.len(),
{
    let w = wanted(pager);
    if responses.len() == 0 {
        assert(all_incoming(pager.events) + w.all_emitted(Seq::empty()) =~= all_incoming(
            pager.events,
        ));
    } else {
        let front = responses.drop_last();
        reading_adds_what_ledgers_emit(pager, front);
        let before = read(pager, front)->Ok_0;
        let ledgers = reported(responses.last());
        lemma_page_emits(w, Gathered { events: before.events, error: None }, ledgers, 0);
        assert(ledgers.subrange(0, ledgers.len() as int) =~= ledgers);
        lemma_all_emitted_add(w, all_reported(front), ledgers);
        assert(all_incoming(before.events) + w.all_emitted(ledgers) =~= all_incoming(pager.events)
            + w.all_emitted(all_reported(responses)));
    }
}

/// The events of one ledger.
spec fn of(events: Seq<Incoming>, ledger: u64) -> Seq<Incoming> {
    events.filter(|event: Incoming| event.ledger == ledger)
}

/// No event is of a ledger before that of one that it follows.
spec fn rising(events: Seq<Incoming>) -> bool {
    forall|i: int, j: int|
        0 <= i < j < events.len() ==> (#[trigger] events[i]).ledger <= (#[trigger] events[j]).ledger
}

proof fn lemma_of_add(a: Seq<Incoming>, b: Seq<Incoming>, ledger: u64)
    ensures
        of(a + b, ledger) == of(a, ledger) + of(b, ledger),
{
    Seq::filter_distributes_over_add(a, b, |event: Incoming| event.ledger == ledger);
}

proof fn lemma_of_one(event: Incoming, ledger: u64)
    ensures
        of(seq![event], ledger) == if event.ledger == ledger {
            seq![event]
        } else {
            Seq::empty()
        },
{
    reveal_with_fuel(Seq::filter, 2);
    assert(seq![event].drop_last() =~= Seq::empty());
    assert(of(seq![event], ledger) =~= if event.ledger == ledger {
        seq![event]
    } else {
        Seq::empty()
    });
}

proof fn lemma_of_none(events: Seq<Incoming>, ledger: u64)
    requires
        forall|i: int| 0 <= i < events.len() ==> (#[trigger] events[i]).ledger != ledger,
    ensures
        of(events, ledger) == Seq::<Incoming>::empty(),
    decreases events.len(),
{
    reveal(Seq::filter);
    if events.len() > 0 {
        lemma_of_none(events.drop_last(), ledger);
    } else {
        assert(of(events, ledger) =~= Seq::empty());
    }
}

proof fn lemma_of_all(events: Seq<Incoming>, ledger: u64)
    requires
        forall|i: int| 0 <= i < events.len() ==> (#[trigger] events[i]).ledger == ledger,
    ensures
        of(events, ledger) == events,
    decreases events.len(),
{
    reveal(Seq::filter);
    if events.len() > 0 {
        lemma_of_all(events.drop_last(), ledger);
        assert(events.drop_last().push(events.last()) =~= events);
    } else {
        assert(of(events, ledger) =~= events);
    }
}

/// Events that are put in the order of their ledgers keep their order in each.
proof fn lemma_sorting_keeps(found: Seq<LocalEvent>, n: nat, ledger: u64)
    requires
        n <= found.len(),
    ensures
        of(all_incoming(picked(found, positions(local_places(found), n))), ledger) == of(
            all_incoming(found.subrange(0, n as int)),
            ledger,
        ),
    decreases n,
{
    let list = local_places(found);
    if n == 0 {
        assert(picked(found, positions(list, 0)) =~= found.subrange(0, 0));
    } else {
        let m = (n - 1) as nat;
        lemma_sorting_keeps(found, m, ledger);
        let front = positions(list, m);
        let at = slot(list, front, list[n - 1], m) as int;
        lemma_positions(list, m);
        lemma_slot_range(list, front, list[n - 1], m);
        let before = all_incoming(picked(found, front));
        let event = incoming(found[n - 1]);
        let (low, high) = (before.subrange(0, at), before.subrange(at, m as int));
        assert(before =~= low + high);
        assert(all_incoming(picked(found, positions(list, n))) =~= low + seq![event] + high);
        assert(all_incoming(found.subrange(0, n as int)) =~= all_incoming(
            found.subrange(0, m as int),
        ) + seq![event]);
        lemma_of_add(low, high, ledger);
        lemma_of_add(low, seq![event], ledger);
        lemma_of_add(low + seq![event], high, ledger);
        lemma_of_add(all_incoming(found.subrange(0, m as int)), seq![event], ledger);
        lemma_of_one(event, ledger);
        if event.ledger == ledger {
            assert forall|i: int| 0 <= i < high.len() implies (#[trigger] high[i]).ledger
                != ledger by {
                assert(high[i] == incoming(found[front[at + i]]));
                assert(place_before(list[n - 1], list[front[at + i]]));
                lemma_same_ledger(list[n - 1], list[front[at + i]]);
            }
            lemma_of_none(high, ledger);
            assert(of(low, ledger) + seq![event] + of(high, ledger) =~= of(low, ledger) + of(
                high,
                ledger,
            ) + seq![event]);
        } else {
            assert(of(low, ledger) + Seq::<Incoming>::empty() + of(high, ledger) =~= of(low, ledger)
                + of(high, ledger));
            assert(of(before, ledger) + Seq::<Incoming>::empty() =~= of(before, ledger));
        }
    }
}

/// Places of one ledger without a text are alike.
proof fn lemma_same_ledger(a: Place, b: Place)
    requires
        place_before(a, b),
        a.within == b.within,
    ensures
        a.ledger < b.ledger,
{
    lemma_text_irreflexive(a.within);
}

/// Events in the order of their ledgers are told by the events of each.
proof fn lemma_rising_same(a: Seq<Incoming>, b: Seq<Incoming>)
    requires
        rising(a),
        rising(b),
        forall|ledger: u64| #[trigger] of(a, ledger) == of(b, ledger),
    ensures
        a == b,
    decreases a.len(),
{
    if a.len() == 0 {
        if b.len() > 0 {
            lemma_first(b);
            lemma_of_none(a, b[0].ledger);
        }
        assert(a =~= b);
    } else {
        lemma_first(a);
        if b.len() == 0 {
            lemma_of_none(b, a[0].ledger);
        } else {
            lemma_first(b);
            assert(a[0].ledger == b[0].ledger) by {
                if a[0].ledger < b[0].ledger {
                    assert forall|i: int| 0 <= i < b.len() implies (#[trigger] b[i]).ledger
                        != a[0].ledger by {
                        assert(b[0].ledger <= b[i].ledger);
                    }
                    lemma_of_none(b, a[0].ledger);
                }
                if b[0].ledger < a[0].ledger {
                    assert forall|i: int| 0 <= i < a.len() implies (#[trigger] a[i]).ledger
                        != b[0].ledger by {
                        assert(a[0].ledger <= a[i].ledger);
                    }
                    lemma_of_none(a, b[0].ledger);
                }
            }
            assert(of(a, a[0].ledger)[0] == a[0]);
            assert(of(b, b[0].ledger)[0] == b[0]);
            let (x, y) = (a.drop_first(), b.drop_first());
            assert forall|ledger: u64| #[trigger] of(x, ledger) == of(y, ledger) by {
                assert(a =~= seq![a[0]] + x);
                assert(b =~= seq![b[0]] + y);
                lemma_of_add(seq![a[0]], x, ledger);
                lemma_of_add(seq![b[0]], y, ledger);
                let head = of(seq![a[0]], ledger);
                assert(head + of(x, ledger) == head + of(y, ledger));
                let whole = of(a, ledger);
                assert(of(x, ledger) =~= whole.subrange(head.len() as int, whole.len() as int));
                assert(of(y, ledger) =~= whole.subrange(head.len() as int, whole.len() as int));
            }
            lemma_rising_same(x, y);
            assert(a =~= seq![a[0]] + x);
            assert(b =~= seq![b[0]] + y);
        }
    }
}

/// The first event is the first of its ledger.
proof fn lemma_first(events: Seq<Incoming>)
    requires
        events.len() > 0,
    ensures
        of(events, events[0].ledger).len() > 0,
        of(events, events[0].ledger)[0] == events[0],
{
    let ledger = events[0].ledger;
    assert(events =~= seq![events[0]] + events.drop_first());
    lemma_of_add(seq![events[0]], events.drop_first(), ledger);
    lemma_of_one(events[0], ledger);
}

/// The events of a ledger are of that ledger, and in the order of the chain.
proof fn lemma_emitted(w: Wanted, ledger: ReportedLedger)
    ensures
        forall|i: int|
            0 <= i < w.emitted(ledger).len() ==> (#[trigger] w.emitted(ledger)[i]).ledger
                == ledger.sequence,
        in_chain_order(w.emitted(ledger)),
{
    match decoded_ledger(ledger.metadata_xdr) {
        Ok(transactions) => {
            ledger_events_are_appended(
                going(Seq::empty()),
                ledger.sequence,
                transactions,
                w.contract,
                0,
            );
            ledger_events_are_in_chain_order(ledger.sequence, transactions, w.contract);
        },
        Err(_) => {},
    }
}

/// Each ledger comes after the one before it.
pub open spec fn ascending(ledgers: Seq<ReportedLedger>) -> bool {
    forall|i: int, j: int|
        0 <= i < j < ledgers.len() ==> (#[trigger] ledgers[i]).sequence < (
        #[trigger] ledgers[j]).sequence
}

/// No ledger is there twice.
spec fn once(ledgers: Seq<ReportedLedger>) -> bool {
    forall|i: int, j: int|
        0 <= i < j < ledgers.len() ==> (#[trigger] ledgers[i]).sequence != (
        #[trigger] ledgers[j]).sequence
}

/// Ledgers give no events of a ledger that is not among them.
proof fn lemma_none_emitted(w: Wanted, ledgers: Seq<ReportedLedger>, ledger: u64)
    requires
        forall|i: int| 0 <= i < ledgers.len() ==> (#[trigger] ledgers[i]).sequence != ledger,
    ensures
        of(w.all_emitted(ledgers), ledger) == Seq::<Incoming>::empty(),
    decreases ledgers.len(),
{
    if ledgers.len() == 0 {
        lemma_of_none(w.all_emitted(ledgers), ledger);
    } else {
        let (first, rest) = (w.emitted(ledgers[0]), ledgers.drop_first());
        lemma_none_emitted(w, rest, ledger);
        lemma_emitted(w, ledgers[0]);
        lemma_of_none(first, ledger);
        lemma_of_add(first, w.all_emitted(rest), ledger);
    }
}

/// The events of a ledger among others that are each there once.
proof fn lemma_emitted_of(w: Wanted, ledgers: Seq<ReportedLedger>, i: int)
    requires
        once(ledgers),
        0 <= i < ledgers.len(),
    ensures
        of(w.all_emitted(ledgers), ledgers[i].sequence as u64) == w.emitted(ledgers[i]),
    decreases ledgers.len(),
{
    let ledger = ledgers[i].sequence as u64;
    let (first, rest) = (w.emitted(ledgers[0]), ledgers.drop_first());
    lemma_emitted(w, ledgers[0]);
    lemma_of_add(first, w.all_emitted(rest), ledger);
    if i == 0 {
        lemma_of_all(first, ledger);
        lemma_none_emitted(w, rest, ledger);
        assert(first + Seq::<Incoming>::empty() =~= first);
    } else {
        assert(ledgers[0].sequence != ledgers[i].sequence);
        lemma_of_none(first, ledger);
        assert(rest[i - 1] == ledgers[i]);
        lemma_emitted_of(w, rest, i - 1);
        assert(Seq::<Incoming>::empty() + w.emitted(ledgers[i]) =~= w.emitted(ledgers[i]));
    }
}

/// The events of ascending ledgers stand in the order of the chain.
pub proof fn emitted_events_are_in_chain_order(w: Wanted, chain: Seq<ReportedLedger>)
    requires
        ascending(chain),
    ensures
        in_chain_order(w.all_emitted(chain)),
{
    lemma_emitted_in_order(w, chain);
}

proof fn lemma_emitted_in_order(w: Wanted, chain: Seq<ReportedLedger>)
    requires
        ascending(chain),
    ensures
        in_chain_order(w.all_emitted(chain)),
        rising(w.all_emitted(chain)),
        forall|i: int|
            0 <= i < w.all_emitted(chain).len() ==> chain.len() > 0 && chain[0].sequence <= (
            #[trigger] w.all_emitted(chain)[i]).ledger,
    decreases chain.len(),
{
    if chain.len() > 0 {
        let (first, rest) = (w.emitted(chain[0]), chain.drop_first());
        let later = w.all_emitted(rest);
        lemma_emitted(w, chain[0]);
        lemma_emitted_in_order(w, rest);
        let all = w.all_emitted(chain);
        let n = first.len() as int;
        assert forall|i: int| 0 <= i < all.len() implies all[i] == if i < n {
            first[i]
        } else {
            later[i - n]
        } by {}
        assert forall|i: int| n <= i < all.len() implies chain[0].sequence < (
        #[trigger] all[i]).ledger by {
            assert(all[i] == later[i - n]);
            assert(chain[0].sequence < chain[1].sequence);
            assert(rest[0] == chain[1]);
        }
        assert forall|i: int| 0 <= i < all.len() implies standing_of((#[trigger] all[i]).id).ledger
            == all[i].ledger by {
            if i < n {
                assert(all[i] == first[i]);
            } else {
                assert(all[i] == later[i - n]);
            }
        }
        assert forall|i: int, j: int| 0 <= i < j < all.len() implies earlier(
            standing_of((#[trigger] all[i]).id),
            standing_of((#[trigger] all[j]).id),
        ) && all[i].ledger <= all[j].ledger by {
            if j < n {
                assert(all[i] == first[i] && all[j] == first[j]);
            } else if i >= n {
                assert(all[i] == later[i - n] && all[j] == later[j - n]);
            } else {
                assert(all[i] == first[i]);
            }
        }
    }
}

/// `at` meets each number below `n`.
proof fn lemma_position_met(at: Seq<int>, n: nat, k: int) -> (i: int)
    requires
        all_positions(at, n),
        0 <= k < n,
    ensures
        0 <= i < n,
        at[i] == k,
{
    assert(at.no_duplicates()) by {
        assert forall|i: int, j: int| 0 <= i < at.len() && 0 <= j < at.len() && i != j implies at[i]
            != at[j] by {
            if i < j {
                assert(at[i] != at[j]);
            } else {
                assert(at[j] != at[i]);
            }
        }
    }
    at.unique_seq_to_set();
    lemma_int_range(0, n as int);
    let range = set_int_range(0, n as int);
    assert(at.to_set().subset_of(range)) by {
        assert forall|x: int| at.to_set().contains(x) implies range.contains(x) by {
            let i = choose|i: int| 0 <= i < at.len() && at[i] == x;
            assert(0 <= at[i] < n);
        }
    }
    seq_to_set_is_finite(at);
    lemma_subset_equality(at.to_set(), range);
    assert(at.to_set().contains(k));
    choose|i: int| 0 <= i < at.len() && at[i] == k
}

/// Whatever order the ledgers of the chain were read in, each once, the events come
/// out as on the chain: all of them, from ledger to ledger, and in each ledger by
/// transaction, operation and event.
pub proof fn events_come_out_as_on_the_chain(
    w: Wanted,
    chain: Seq<ReportedLedger>,
    at: Seq<int>,
    found: Seq<LocalEvent>,
)
    requires
        ascending(chain),
        all_positions(at, chain.len()),
        all_incoming(found) == w.all_emitted(picked(chain, at)),
    ensures
        all_incoming(picked(found, by_ledger(found))) == w.all_emitted(chain),
        in_chain_order(all_incoming(picked(found, by_ledger(found)))),
{
    let out = all_incoming(picked(found, by_ledger(found)));
    let read = picked(chain, at);
    ledgers_keep_their_order(found);
    lemma_emitted_in_order(w, chain);
    assert(once(read)) by {
        assert forall|i: int, j: int| 0 <= i < j < read.len() implies (#[trigger] read[i]).sequence
            != (#[trigger] read[j]).sequence by {
            assert(at[i] != at[j]);
            if at[i] < at[j] {
                assert(chain[at[i]].sequence < chain[at[j]].sequence);
            } else {
                assert(chain[at[j]].sequence < chain[at[i]].sequence);
            }
        }
    }
    assert(rising(out)) by {
        let order = by_ledger(found);
        assert forall|i: int, j: int| 0 <= i < j < out.len() implies (#[trigger] out[i]).ledger <= (
        #[trigger] out[j]).ledger by {
            assert(out[i] == incoming(found[order[i]]));
            assert(out[j] == incoming(found[order[j]]));
        }
    }
    assert forall|ledger: u64| #[trigger] of(out, ledger) == of(w.all_emitted(chain), ledger) by {
        lemma_sorting_keeps(found, found.len(), ledger);
        assert(found.subrange(0, found.len() as int) =~= found);
        if exists|k: int| 0 <= k < chain.len() && (#[trigger] chain[k]).sequence == ledger {
            let k = choose|k: int| 0 <= k < chain.len() && (#[trigger] chain[k]).sequence == ledger;
            let i = lemma_position_met(at, chain.len(), k);
            assert(read[i] == chain[k]);
            lemma_emitted_of(w, read, i);
            lemma_emitted_of(w, chain, k);
        } else {
            assert forall|i: int| 0 <= i < read.len() implies (#[trigger] read[i]).sequence
                != ledger by {
                assert(read[i] == chain[at[i]]);
            }
            lemma_none_emitted(w, read, ledger);
            lemma_none_emitted(w, chain, ledger);
        }
    }
    lemma_rising_same(out, w.all_emitted(chain));
}

/// Reading the ledgers of the chain, in whatever order they are reported, each once,
/// and handling the events that come out rebuilds the tree: where the events that
/// the contract emitted fit one after the other, the tree has their leaves in the
/// order of the chain and the root of the last of them, and all are recorded.
pub proof fn reading_the_chain_rebuilds_the_tree(
    pager: LedgerPagerView,
    responses: Seq<GetLedgersResponse>,
    chain: Seq<ReportedLedger>,
    at: Seq<int>,
    world: World,
    roots: spec_fn(Seq<Seq<u8>>) -> Seq<u8>,
)
    requires
        pager.events.len() == 0,
        read(pager, responses) is Ok,
        ascending(chain),
        all_positions(at, chain.len()),
        all_reported(responses) == picked(chain, at),
        aligned(world),
        all_fit(wanted(pager).all_emitted(chain), world, roots),
    ensures
        ({
            let found = read(pager, responses)->Ok_0.events;
            let emitted = wanted(pager).all_emitted(chain);
            let end = handled_all(
                all_incoming(picked(found, by_ledger(found))),
                world,
                roots,
            );
            &&& end.end is Done
            &&& end.world.leaves == world.leaves + all_leaves(emitted)
            &&& aligned(end.world)
            &&& emitted.len() > 0 ==> roots(end.world.leaves) == emitted.last().app().root
        }),
{
    let w = wanted(pager);
    let found = read(pager, responses)->Ok_0.events;
    reading_adds_what_ledgers_emit(pager, responses);
    assert(all_incoming(pager.events) + w.all_emitted(picked(chain, at)) =~= w.all_emitted(
        picked(chain, at),
    ));
    events_come_out_as_on_the_chain(w, chain, at, found);
    events_in_order_rebuild_the_tree(w.all_emitted(chain), world, roots);
}

} // verus!
