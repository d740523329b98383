//! Tree events gathered from the metadata of ledgers.
use vstd::prelude::*;
use vstd::string::*;

use crate::encoding::TreeHash;
use crate::events::{FieldError, FieldFault, MixerTreeEvent, TreeEvent};
use crate::ledger_meta::{
    event_views, ContractEventData, EventData, LedgerEvents, TransactionEvents, TransactionTree,
};
use crate::scval_events::{
    contract_event_matches_contract, contract_tree_event, parse_contract_event_fast,
};
use crate::text::{
    all_digits, decimal, decimal_is_digits, decimal_is_injective, decimal_text, is_digit,
};

verus! {

/// A tree event found in a ledger, in the abstract.
pub struct LocalEvent {
    pub id: Seq<char>,
    pub ledger: u32,
    pub order: u32,
    pub event: TreeEvent,
}

/// A tree event found in a ledger.
#[derive(Debug)]
pub struct LocalLedgerEvent {
    /// The place of the event in the ledger.
    pub id: String,
    pub ledger: u32,
    /// How many events were found before it.
    pub order: u32,
    pub parsed: MixerTreeEvent,
}

impl View for LocalLedgerEvent {
    type V = LocalEvent;

    open spec fn view(&self) -> LocalEvent {
        LocalEvent { id: self.id@, ledger: self.ledger, order: self.order, event: self.parsed@ }
    }
}

/// Events in the abstract.
pub open spec fn local_views(list: Seq<LocalLedgerEvent>) -> Seq<LocalEvent> {
    list.map_values(|event: LocalLedgerEvent| event@)
}

/// The id of event `event` of transaction `tx` as a whole.
pub open spec fn soroban_event_id(ledger: nat, tx: nat, event: nat) -> Seq<char> {
    "ledger-meta:"@ + decimal(ledger) + ":tx:"@ + decimal(tx) + ":soroban:"@ + decimal(event)
}

/// The id of event `event` of operation `op` of transaction `tx`.
pub open spec fn operation_event_id(ledger: nat, tx: nat, op: nat, event: nat) -> Seq<char> {
    "ledger-meta:"@ + decimal(ledger) + ":tx:"@ + decimal(tx) + ":op:"@ + decimal(op) + ":event:"@
        + decimal(event)
}

/// The events found so far, and what stopped the search.
pub struct Collected {
    pub events: Seq<LocalEvent>,
    pub error: Option<FieldFault>,
}

/// The search goes past one contract event. An event of another contract, or one
/// that is no tree event, is passed over.
pub open spec fn collect_one(
    found: Collected,
    ledger: u32,
    id: Seq<char>,
    event: EventData,
    contract: Seq<u8>,
) -> Collected {
    if event.contract_id != Some(contract) {
        found
    } else {
        match contract_tree_event(event) {
            Ok(Some(parsed)) => Collected {
                events: found.events.push(
                    LocalEvent { id, ledger, order: found.events.len() as u32, event: parsed },
                ),
                error: None,
            },
            Ok(None) => found,
            Err(fault) => Collected { events: found.events, error: Some(fault) },
        }
    }
}

/// The search goes on from event `i` of a transaction.
pub open spec fn collect_soroban(
    found: Collected,
    ledger: u32,
    tx: nat,
    events: Seq<EventData>,
    contract: Seq<u8>,
    i: nat,
) -> Collected
    decreases events.len() - i,
{
    if i >= events.len() || found.error is Some {
        found
    } else {
        collect_soroban(
            collect_one(
                found,
                ledger,
                soroban_event_id(ledger as nat, tx, i),
                events[i as int],
                contract,
            ),
            ledger,
            tx,
            events,
            contract,
            i + 1,
        )
    }
}

/// The search goes on from event `i` of an operation.
pub open spec fn collect_operation(
    found: Collected,
    ledger: u32,
    tx: nat,
    op: nat,
    events: Seq<EventData>,
    contract: Seq<u8>,
    i: nat,
) -> Collected
    decreases events.len() - i,
{
    if i >= events.len() || found.error is Some {
        found
    } else {
        collect_operation(
            collect_one(
                found,
                ledger,
                operation_event_id(ledger as nat, tx, op, i),
                events[i as int],
                contract,
            ),
            ledger,
            tx,
            op,
            events,
            contract,
            i + 1,
        )
    }
}

/// The search goes on from operation `op` of a transaction.
pub open spec fn collect_operations(
    found: Collected,
    ledger: u32,
    tx: nat,
    operations: Seq<Seq<EventData>>,
    contract: Seq<u8>,
    op: nat,
) -> Collected
    decreases operations.len() - op,
{
    if op >= operations.len() || found.error is Some {
        found
    } else {
        collect_operations(
            collect_operation(found, ledger, tx, op, operations[op as int], contract, 0),
            ledger,
            tx,
            operations,
            contract,
            op + 1,
        )
    }
}

/// The search goes through a transaction.
pub open spec fn collect_transaction(
    found: Collected,
    ledger: u32,
    tx: nat,
    transaction: TransactionTree,
    contract: Seq<u8>,
) -> Collected {
    match transaction {
        TransactionTree::Soroban(events) => collect_soroban(found, ledger, tx, events, contract, 0),
        TransactionTree::Operations(operations) => collect_operations(
            found,
            ledger,
            tx,
            operations,
            contract,
            0,
        ),
        TransactionTree::Other => found,
    }
}

/// The search goes on from transaction `tx` of a ledger.
pub open spec fn collect_ledger(
    found: Collected,
    ledger: u32,
    transactions: Seq<TransactionTree>,
    contract: Seq<u8>,
    tx: nat,
) -> Collected
    decreases transactions.len() - tx,
{
    if tx >= transactions.len() || found.error is Some {
        found
    } else {
        collect_ledger(
            collect_transaction(found, ledger, tx, transactions[tx as int], contract),
            ledger,
            transactions,
            contract,
            tx + 1,
        )
    }
}

/// A search that has found `events` and goes on.
pub open spec fn going(events: Seq<LocalEvent>) -> Collected {
    Collected { events, error: None }
}

/// What a search that left `events` behind came to.
pub open spec fn stopped(events: Seq<LocalEvent>, out: Result<(), FieldError>) -> Collected {
    match out {
        Ok(()) => Collected { events, error: None },
        Err(error) => Collected { events, error: Some(error@) },
    }
}

/// The id of an event of a transaction as a whole.
fn soroban_id(ledger: u32, tx: usize, event: usize) -> (out: String)
    ensures
        out@ == soroban_event_id(ledger as nat, tx as nat, event as nat),
{
    let mut out = "ledger-meta:".to_owned();
    out.append(decimal_text(ledger as u64).as_str());
    out.append(":tx:");
    out.append(decimal_text(tx as u64).as_str());
    out.append(":soroban:");
    out.append(decimal_text(event as u64).as_str());
    out
}

/// The id of an event of an operation.
fn operation_id(ledger: u32, tx: usize, op: usize, event: usize) -> (out: String)
    ensures
        out@ == operation_event_id(ledger as nat, tx as nat, op as nat, event as nat),
{
    let mut out = "ledger-meta:".to_owned();
    out.append(decimal_text(ledger as u64).as_str());
    out.append(":tx:");
    out.append(decimal_text(tx as u64).as_str());
    out.append(":op:");
    out.append(decimal_text(op as u64).as_str());
    out.append(":event:");
    out.append(decimal_text(event as u64).as_str());
    out
}

/// Adds an event to `out` where it is a tree event of the contract.
pub fn maybe_push_contract_event(
    ledger: u32,
    event_id: String,
    event: &ContractEventData,
    mixer_contract_id: &TreeHash,
    out: &mut Vec<LocalLedgerEvent>,
) -> (done: Result<(), FieldError>)
    ensures
        stopped(local_views(final(out)@), done) == collect_one(
            going(local_views(old(out)@)),
            ledger,
            event_id@,
            event@,
            mixer_contract_id@,
        ),
{
    if !contract_event_matches_contract(event, mixer_contract_id) {
        return Ok(());
    }
    match parse_contract_event_fast(event)? {
        Some(parsed) => {
            let order = out.len() as u32;
            let ghost before = local_views(out@);
            let found = LocalLedgerEvent { id: event_id, ledger, order, parsed };
            out.push(found);
            assert(local_views(out@) =~= before.push(found@));
            Ok(())
        },
        None => Ok(()),
    }
}

/// Adds the tree events of a transaction to `out`.
pub fn collect_mixer_events_from_transaction_meta(
    ledger: u32,
    tx_index: usize,
    tx_meta: &TransactionEvents,
    mixer_contract_id: &TreeHash,
    out: &mut Vec<LocalLedgerEvent>,
) -> (done: Result<(), FieldError>)
    ensures
        stopped(local_views(final(out)@), done) == collect_transaction(
            going(local_views(old(out)@)),
            ledger,
            tx_index as nat,
            tx_meta@,
            mixer_contract_id@,
        ),
{
    match tx_meta {
        TransactionEvents::Soroban(events) => {
            let ghost all = event_views(events@);
            let ghost whole = collect_transaction(
                going(local_views(old(out)@)),
                ledger,
                tx_index as nat,
                tx_meta@,
                mixer_contract_id@,
            );
            let mut i: usize = 0;
            while i < events.len()
                invariant
                    all == event_views(events@),
                    i <= events@.len(),
                    whole == collect_transaction(
                        going(local_views(old(out)@)),
                        ledger,
                        tx_index as nat,
                        tx_meta@,
                        mixer_contract_id@,
                    ),
                    whole == collect_soroban(
                        going(local_views(out@)),
                        ledger,
                        tx_index as nat,
                        all,
                        mixer_contract_id@,
                        i as nat,
                    ),
                decreases events@.len() - i,
            {
                proof {
                    reveal_with_fuel(collect_soroban, 2);
                }
                assert(all[i as int] == events@[i as int]@);
                maybe_push_contract_event(
                    ledger,
                    soroban_id(ledger, tx_index, i),
                    &events[i],
                    mixer_contract_id,
                    out,
                )?;
                i = i + 1;
            }
            Ok(())
        },
        TransactionEvents::Operations(operations) => {
            let ghost all = tx_meta@->Operations_0;
            let ghost whole = collect_transaction(
                going(local_views(old(out)@)),
                ledger,
                tx_index as nat,
                tx_meta@,
                mixer_contract_id@,
            );
            let mut op: usize = 0;
            while op < operations.len()
                invariant
                    *tx_meta == TransactionEvents::Operations(*operations),
                    all == tx_meta@->Operations_0,
                    op <= operations@.len(),
                    whole == collect_transaction(
                        going(local_views(old(out)@)),
                        ledger,
                        tx_index as nat,
                        tx_meta@,
                        mixer_contract_id@,
                    ),
                    whole == collect_operations(
                        going(local_views(out@)),
                        ledger,
                        tx_index as nat,
                        all,
                        mixer_contract_id@,
                        op as nat,
                    ),
                decreases operations@.len() - op,
            {
                proof {
                    reveal_with_fuel(collect_operations, 2);
                }
                assert(all[op as int] == event_views(operations@[op as int]@));
                collect_operation_events(
                    ledger,
                    tx_index,
                    op,
                    &operations[op],
                    mixer_contract_id,
                    out,
                )?;
                op = op + 1;
            }
            Ok(())
        },
        TransactionEvents::Other => Ok(()),
    }
}

/// Adds the tree events of an operation to `out`.
fn collect_operation_events(
    ledger: u32,
    tx_index: usize,
    op_index: usize,
    events: &Vec<ContractEventData>,
    mixer_contract_id: &TreeHash,
    out: &mut Vec<LocalLedgerEvent>,
) -> (done: Result<(), FieldError>)
    ensures
        stopped(local_views(final(out)@), done) == collect_operation(
            going(local_views(old(out)@)),
            ledger,
            tx_index as nat,
            op_index as nat,
            event_views(events@),
            mixer_contract_id@,
            0,
        ),
{
    let ghost all = event_views(events@);
    let ghost whole = collect_operation(
        going(local_views(old(out)@)),
        ledger,
        tx_index as nat,
        op_index as nat,
        all,
        mixer_contract_id@,
        0,
    );
    let mut i: usize = 0;
    while i < events.len()
        invariant
            all == event_views(events@),
            i <= events@.len(),
            whole == collect_operation(
                going(local_views(old(out)@)),
                ledger,
                tx_index as nat,
                op_index as nat,
                all,
                mixer_contract_id@,
                0,
            ),
            whole == collect_operation(
                going(local_views(out@)),
                ledger,
                tx_index as nat,
                op_index as nat,
                all,
                mixer_contract_id@,
                i as nat,
            ),
        decreases events@.len() - i,
    {
        proof {
            reveal_with_fuel(collect_operation, 2);
        }
        assert(all[i as int] == events@[i as int]@);
        maybe_push_contract_event(
            ledger,
            operation_id(ledger, tx_index, op_index, i),
            &events[i],
            mixer_contract_id,
            out,
        )?;
        i = i + 1;
    }
    Ok(())
}

/// Adds the tree events of a ledger to `out`.
pub fn collect_mixer_events_from_ledger_close_meta(
    ledger: u32,
    meta: &LedgerEvents,
    mixer_contract_id: &TreeHash,
    out: &mut Vec<LocalLedgerEvent>,
) -> (done: Result<(), FieldError>)
    ensures
        stopped(local_views(final(out)@), done) == collect_ledger(
            going(local_views(old(out)@)),
            ledger,
            meta@,
            mixer_contract_id@,
            0,
        ),
{
    let ghost all = meta@;
    let ghost whole = collect_ledger(
        going(local_views(old(out)@)),
        ledger,
        all,
        mixer_contract_id@,
        0,
    );
    let mut tx: usize = 0;
    while tx < meta.transactions.len()
        invariant
            all == meta@,
            tx <= meta.transactions@.len(),
            whole == collect_ledger(
                going(local_views(old(out)@)),
                ledger,
                all,
                mixer_contract_id@,
                0,
            ),
            whole == collect_ledger(
                going(local_views(out@)),
                ledger,
                all,
                mixer_contract_id@,
                tx as nat,
            ),
        decreases meta.transactions@.len() - tx,
    {
        proof {
            reveal_with_fuel(collect_ledger, 2);
        }
        assert(all[tx as int] == meta.transactions@[tx as int]@);
        collect_mixer_events_from_transaction_meta(
            ledger,
            tx,
            &meta.transactions[tx],
            mixer_contract_id,
            out,
        )?;
        tx = tx + 1;
    }
    Ok(())
}

/// Where a ledger's contract event stands.
pub enum EventPlace {
    /// An event of a transaction as a whole.
    Soroban { ledger: nat, tx: nat, event: nat },
    /// An event of an operation of a transaction.
    Operation { ledger: nat, tx: nat, op: nat, event: nat },
}

impl EventPlace {
    /// The id of the event at this place.
    pub open spec fn id(self) -> Seq<char> {
        match self {
            EventPlace::Soroban { ledger, tx, event } => soroban_event_id(ledger, tx, event),
            EventPlace::Operation { ledger, tx, op, event } => operation_event_id(
                ledger,
                tx,
                op,
                event,
            ),
        }
    }
}

/// Digits, and what follows them from a character that is no digit, can be told
/// apart.
proof fn lemma_digits_end(a: Seq<char>, b: Seq<char>, x: Seq<char>, y: Seq<char>)
    requires
        all_digits(a),
        all_digits(b),
        x.len() > 0,
        y.len() > 0,
        !is_digit(x[0]),
        !is_digit(y[0]),
        a + x == b + y,
    ensures
        a == b,
        x == y,
{
    let s = a + x;
    if a.len() < b.len() {
        assert(s[a.len() as int] == x[0]);
        assert(s[a.len() as int] == b[a.len() as int]);
    }
    if b.len() < a.len() {
        assert(s[b.len() as int] == y[0]);
        assert(s[b.len() as int] == a[b.len() as int]);
    }
    assert(a =~= s.subrange(0, a.len() as int));
    assert(b =~= s.subrange(0, b.len() as int));
    assert(x =~= s.subrange(a.len() as int, s.len() as int));
    assert(y =~= s.subrange(b.len() as int, s.len() as int));
}

/// What follows the ledger in the id of an event.
spec fn after_ledger(place: EventPlace) -> Seq<char> {
    match place {
        EventPlace::Soroban { tx, .. } => ":tx:"@ + (decimal(tx) + after_tx(place)),
        EventPlace::Operation { tx, .. } => ":tx:"@ + (decimal(tx) + after_tx(place)),
    }
}

/// What follows the transaction in the id of an event.
spec fn after_tx(place: EventPlace) -> Seq<char> {
    match place {
        EventPlace::Soroban { event, .. } => ":soroban:"@ + decimal(event),
        EventPlace::Operation { op, event, .. } => ":op:"@ + (decimal(op) + (":event:"@ + decimal(
            event,
        ))),
    }
}

spec fn place_ledger(place: EventPlace) -> nat {
    match place {
        EventPlace::Soroban { ledger, .. } => ledger,
        EventPlace::Operation { ledger, .. } => ledger,
    }
}

spec fn place_tx(place: EventPlace) -> nat {
    match place {
        EventPlace::Soroban { tx, .. } => tx,
        EventPlace::Operation { tx, .. } => tx,
    }
}

/// The parts of the id of an event.
proof fn lemma_id_parts(place: EventPlace)
    ensures
        place.id() == "ledger-meta:"@ + (decimal(place_ledger(place)) + after_ledger(place)),
{
    let (l, t) = (decimal(place_ledger(place)), decimal(place_tx(place)));
    let x1 = "ledger-meta:"@ + l;
    let x2 = x1 + ":tx:"@;
    let x3 = x2 + t;
    match place {
        EventPlace::Soroban { event, .. } => {
            lemma_regroup(x3, ":soroban:"@, decimal(event));
        },
        EventPlace::Operation { op, event, .. } => {
            let x4 = x3 + ":op:"@;
            let last = ":event:"@ + decimal(event);
            lemma_regroup(x4 + decimal(op), ":event:"@, decimal(event));
            lemma_regroup(x4, decimal(op), last);
            lemma_regroup(x3, ":op:"@, decimal(op) + last);
        },
    }
    lemma_regroup(x2, t, after_tx(place));
    lemma_regroup(x1, ":tx:"@, t + after_tx(place));
    lemma_regroup("ledger-meta:"@, l, after_ledger(place));
}

proof fn lemma_regroup(a: Seq<char>, b: Seq<char>, c: Seq<char>)
    ensures
        a + b + c == a + (b + c),
{
    assert(a + b + c =~= a + (b + c));
}

/// The same text before two texts changes nothing about whether they are the same.
proof fn lemma_front(front: Seq<char>, x: Seq<char>, y: Seq<char>)
    requires
        front + x == front + y,
    ensures
        x == y,
{
    let s = front + x;
    assert(x =~= s.subrange(front.len() as int, s.len() as int));
    assert(y =~= s.subrange(front.len() as int, s.len() as int));
}

/// No two contract events of the chain have the same id: the id tells the ledger,
/// the transaction, the operation and the event.
pub proof fn event_ids_are_distinct(a: EventPlace, b: EventPlace)
    requires
        a.id() == b.id(),
    ensures
        a == b,
{
    lemma_id_parts(a);
    lemma_id_parts(b);
    reveal_strlit(":tx:");
    reveal_strlit(":soroban:");
    reveal_strlit(":op:");
    reveal_strlit(":event:");
    let (la, lb) = (place_ledger(a), place_ledger(b));
    let (ta, tb) = (place_tx(a), place_tx(b));
    lemma_front("ledger-meta:"@, decimal(la) + after_ledger(a), decimal(lb) + after_ledger(b));
    decimal_is_digits(la);
    decimal_is_digits(lb);
    lemma_digits_end(decimal(la), decimal(lb), after_ledger(a), after_ledger(b));
    decimal_is_injective(la, lb);
    lemma_front(":tx:"@, decimal(ta) + after_tx(a), decimal(tb) + after_tx(b));
    decimal_is_digits(ta);
    decimal_is_digits(tb);
    lemma_digits_end(decimal(ta), decimal(tb), after_tx(a), after_tx(b));
    decimal_is_injective(ta, tb);
    assert(after_tx(a)[1] == after_tx(b)[1]);
    match (a, b) {
        (
            EventPlace::Soroban { event: x, .. },
            EventPlace::Soroban { event: y, .. },
        ) => {
            lemma_front(":soroban:"@, decimal(x), decimal(y));
            decimal_is_injective(x, y);
        },
        (
            EventPlace::Operation { op: p, event: x, .. },
            EventPlace::Operation { op: q, event: y, .. },
        ) => {
            let (u, v) = (":event:"@ + decimal(x), ":event:"@ + decimal(y));
            lemma_front(":op:"@, decimal(p) + u, decimal(q) + v);
            decimal_is_digits(p);
            decimal_is_digits(q);
            lemma_digits_end(decimal(p), decimal(q), u, v);
            decimal_is_injective(p, q);
            lemma_front(":event:"@, decimal(x), decimal(y));
            decimal_is_injective(x, y);
        },
        _ => {},
    }
}

/// Each event carries its position.
pub open spec fn numbered(events: Seq<LocalEvent>) -> bool {
    forall|i: int| 0 <= i < events.len() ==> (#[trigger] events[i]).order == i as u32
}

/// The events from position `from` on are of ledger `ledger`.
pub open spec fn of_ledger(events: Seq<LocalEvent>, from: nat, ledger: u32) -> bool {
    forall|i: int| from <= i < events.len() ==> (#[trigger] events[i]).ledger == ledger
}

/// `after` holds what `before` held and, after that, events of ledger `ledger`.
pub open spec fn extends(before: Seq<LocalEvent>, after: Seq<LocalEvent>, ledger: u32) -> bool {
    &&& before.is_prefix_of(after)
    &&& of_ledger(after, before.len(), ledger)
    &&& numbered(before) ==> numbered(after)
}

proof fn lemma_extends_trans(a: Seq<LocalEvent>, b: Seq<LocalEvent>, c: Seq<LocalEvent>, ledger: u32)
    requires
        extends(a, b, ledger),
        extends(b, c, ledger),
    ensures
        extends(a, c, ledger),
{
    assert(a =~= c.subrange(0, a.len() as int)) by {
        assert forall|i: int| 0 <= i < a.len() implies a[i] == c[i] by {
            assert(a[i] == b.subrange(0, a.len() as int)[i]);
            assert(b[i] == c.subrange(0, b.len() as int)[i]);
        }
    }
    assert forall|i: int| a.len() <= i < c.len() implies (#[trigger] c[i]).ledger == ledger by {
        if i < b.len() {
            assert(b[i] == c.subrange(0, b.len() as int)[i]);
        }
    }
}

proof fn lemma_one_extends(
    found: Collected,
    ledger: u32,
    id: Seq<char>,
    event: EventData,
    contract: Seq<u8>,
)
    ensures
        extends(
            found.events,
            collect_one(found, ledger, id, event, contract).events,
            ledger,
        ),
{
    let after = collect_one(found, ledger, id, event, contract).events;
    assert(found.events =~= after.subrange(0, found.events.len() as int));
}

proof fn lemma_soroban_extends(
    found: Collected,
    ledger: u32,
    tx: nat,
    events: Seq<EventData>,
    contract: Seq<u8>,
    i: nat,
)
    ensures
        extends(
            found.events,
            collect_soroban(found, ledger, tx, events, contract, i).events,
            ledger,
        ),
    decreases events.len() - i,
{
    if i >= events.len() || found.error is Some {
        assert(found.events =~= found.events.subrange(0, found.events.len() as int));
    } else {
        let id = soroban_event_id(ledger as nat, tx, i);
        let next = collect_one(found, ledger, id, events[i as int], contract);
        lemma_one_extends(found, ledger, id, events[i as int], contract);
        lemma_soroban_extends(next, ledger, tx, events, contract, i + 1);
        lemma_extends_trans(
            found.events,
            next.events,
            collect_soroban(next, ledger, tx, events, contract, i + 1).events,
            ledger,
        );
    }
}

proof fn lemma_operation_extends(
    found: Collected,
    ledger: u32,
    tx: nat,
    op: nat,
    events: Seq<EventData>,
    contract: Seq<u8>,
    i: nat,
)
    ensures
        extends(
            found.events,
            collect_operation(found, ledger, tx, op, events, contract, i).events,
            ledger,
        ),
    decreases events.len() - i,
{
    if i >= events.len() || found.error is Some {
        assert(found.events =~= found.events.subrange(0, found.events.len() as int));
    } else {
        let id = operation_event_id(ledger as nat, tx, op, i);
        let next = collect_one(found, ledger, id, events[i as int], contract);
        lemma_one_extends(found, ledger, id, events[i as int], contract);
        lemma_operation_extends(next, ledger, tx, op, events, contract, i + 1);
        lemma_extends_trans(
            found.events,
            next.events,
            collect_operation(next, ledger, tx, op, events, contract, i + 1).events,
            ledger,
        );
    }
}

proof fn lemma_operations_extend(
    found: Collected,
    ledger: u32,
    tx: nat,
    operations: Seq<Seq<EventData>>,
    contract: Seq<u8>,
    op: nat,
)
    ensures
        extends(
            found.events,
            collect_operations(found, ledger, tx, operations, contract, op).events,
            ledger,
        ),
    decreases operations.len() - op,
{
    if op >= operations.len() || found.error is Some {
        assert(found.events =~= found.events.subrange(0, found.events.len() as int));
    } else {
        let next = collect_operation(found, ledger, tx, op, operations[op as int], contract, 0);
        lemma_operation_extends(found, ledger, tx, op, operations[op as int], contract, 0);
        lemma_operations_extend(next, ledger, tx, operations, contract, op + 1);
        lemma_extends_trans(
            found.events,
            next.events,
            collect_operations(next, ledger, tx, operations, contract, op + 1).events,
            ledger,
        );
    }
}

/// Going through a ledger keeps the events that were found before, in their
/// order, adds only events of that ledger behind them, and gives each its
/// position.
pub proof fn ledger_events_are_appended(
    found: Collected,
    ledger: u32,
    transactions: Seq<TransactionTree>,
    contract: Seq<u8>,
    tx: nat,
)
    ensures
        extends(
            found.events,
            collect_ledger(found, ledger, transactions, contract, tx).events,
            ledger,
        ),
    decreases transactions.len() - tx,
{
    if tx >= transactions.len() || found.error is Some {
        assert(found.events =~= found.events.subrange(0, found.events.len() as int));
    } else {
        let next = collect_transaction(found, ledger, tx, transactions[tx as int], contract);
        match transactions[tx as int] {
            TransactionTree::Soroban(events) => {
                lemma_soroban_extends(found, ledger, tx, events, contract, 0);
            },
            TransactionTree::Operations(operations) => {
                lemma_operations_extend(found, ledger, tx, operations, contract, 0);
            },
            TransactionTree::Other => {
                assert(found.events =~= found.events.subrange(0, found.events.len() as int));
            },
        }
        ledger_events_are_appended(next, ledger, transactions, contract, tx + 1);
        lemma_extends_trans(
            found.events,
            next.events,
            collect_ledger(next, ledger, transactions, contract, tx + 1).events,
            ledger,
        );
    }
}

} // verus!
