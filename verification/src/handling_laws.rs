//! What handling an event comes to: which leaves are added, and under which ids they
//! are recorded.
use vstd::prelude::*;
use vstd::string::*;

use crate::apply::{
    application, apply_local_ledger_event, apply_rpc_event, reported_application, Application,
    ApplyError, ApplyFault, ApplyReply, EventApplication, Reply, Request, Stage,
};
use crate::apply_laws::{
    aligned, all_fit, all_leaves, answered, event_out_of_order_is_refused, event_records,
    event_with_other_root_is_not_recorded, events_in_order_rebuild_the_tree, handled, handled_all,
    in_memory, lemma_handling_keeps_records, matching_event_is_applied, run, steps_left, unrecorded,
    End, Incoming, Run, World,
};
use crate::encoding::TreeHash;
use crate::events::{MixerTreeEvent, TreeEvent};
use crate::ledger_events::LocalLedgerEvent;
use crate::rpc_events::{reported_tree_event, ReportedEvent, RpcEvent, RpcEventError, RpcEventFault};
use crate::state_laws::{recorded, LeafRecord};
use crate::state_store::Lookup;
use crate::text::decimal;

verus! {

/// The leaves that an event adds to the tree.
pub open spec fn leaves_in(event: TreeEvent) -> Seq<Seq<u8>> {
    match event {
        TreeEvent::Deposit { index: _, leaf, root: _ } => seq![leaf],
        TreeEvent::WithdrawChange { index: _, leaf, root: _ } => seq![leaf],
        TreeEvent::Transfer { start_index: _, output_leaves, root: _ } => output_leaves,
    }
}

/// The index of the first leaf of an event.
pub open spec fn index_in(event: TreeEvent) -> u64 {
    match event {
        TreeEvent::Deposit { index, leaf: _, root: _ } => index,
        TreeEvent::WithdrawChange { index, leaf: _, root: _ } => index,
        TreeEvent::Transfer { start_index, output_leaves: _, root: _ } => start_index,
    }
}

/// The root that the tree has after an event.
pub open spec fn root_in(event: TreeEvent) -> Seq<u8> {
    match event {
        TreeEvent::Deposit { index: _, leaf: _, root } => root,
        TreeEvent::WithdrawChange { index: _, leaf: _, root } => root,
        TreeEvent::Transfer { start_index: _, output_leaves: _, root } => root,
    }
}

/// The id under which leaf `k` of an event is recorded: the event's own, and for a
/// transfer also the number of the leaf.
pub open spec fn leaf_id(event: TreeEvent, id: Seq<char>, k: nat) -> Seq<char> {
    match event {
        TreeEvent::Transfer { .. } => id + "#"@ + decimal(k),
        _ => id,
    }
}

/// The kind of an event in words.
pub open spec fn kind_of(event: TreeEvent) -> Seq<char> {
    match event {
        TreeEvent::Deposit { .. } => "deposit"@,
        TreeEvent::WithdrawChange { .. } => "withdraw"@,
        TreeEvent::Transfer { .. } => "transfer"@,
    }
}

/// What is recorded of an event.
pub open spec fn recorded_as(event: TreeEvent, id: Seq<char>, ledger: u64) -> Seq<LeafRecord> {
    Seq::new(
        leaves_in(event).len(),
        |k: int|
            LeafRecord {
                leaf: leaves_in(event)[k],
                event_id: leaf_id(event, id, k as nat),
                ledger,
                source: kind_of(event),
            },
    )
}

/// The event is not recorded under its id.
pub open spec fn is_new(event: TreeEvent, id: Seq<char>, records: Seq<LeafRecord>) -> bool {
    &&& !recorded(records, id)
    &&& !recorded(records, leaf_id(event, id, 0))
    &&& forall|k: nat|
        k < leaves_in(event).len() ==> !recorded(records, #[trigger] leaf_id(event, id, k))
}

/// The leaves of the event follow those of the tree, and with them the tree has the
/// root of the event.
pub open spec fn continues(
    event: TreeEvent,
    world: World,
    roots: spec_fn(Seq<Seq<u8>>) -> Seq<u8>,
) -> bool {
    &&& world.leaves.len() == index_in(event)
    &&& leaves_in(event).len() <= usize::MAX
    &&& index_in(event) + leaves_in(event).len() <= u64::MAX
    &&& roots(world.leaves + leaves_in(event)) == root_in(event)
}

/// The tree with the leaves of the event, and the records with those of the event.
pub open spec fn with_event(event: TreeEvent, id: Seq<char>, ledger: u64, world: World) -> World {
    World {
        leaves: world.leaves + leaves_in(event),
        records: world.records + recorded_as(event, id, ledger),
    }
}

/// What the database says of an event: it finds what is recorded. Of what is not, it says
/// so, or fails.
pub open spec fn looked_up(reply: Lookup, records: Seq<LeafRecord>, id: Seq<char>) -> bool {
    (reply == Lookup::Found) == recorded(records, id)
}

proof fn lemma_application(event: TreeEvent, id: Seq<char>, ledger: u64)
    ensures
        ({
            let app = application(id, ledger, event);
            &&& app.leaves == leaves_in(event)
            &&& app.start_index == index_in(event)
            &&& app.root == root_in(event)
            &&& event_records(app) == recorded_as(event, id, ledger)
            &&& forall|k: nat| #[trigger] app.leaf_event_id(k) == leaf_id(event, id, k)
        }),
{
    let app = application(id, ledger, event);
    assert forall|k: nat| #[trigger] app.leaf_event_id(k) == leaf_id(event, id, k) by {}
    assert(event_records(app) =~= recorded_as(event, id, ledger));
}

/// Applying an event that is new and continues the tree adds its leaves to the tree and
/// records each under the event's own id, with its ledger and kind.
pub proof fn event_is_recorded_under_its_id(
    id: Seq<char>,
    ledger: u64,
    event: TreeEvent,
    world: World,
    roots: spec_fn(Seq<Seq<u8>>) -> Seq<u8>,
)
    requires
        aligned(world),
        is_new(event, id, world.records),
        continues(event, world, roots),
    ensures
        run(application(id, ledger, event), world, roots) == (Run {
            world: with_event(event, id, ledger, world),
            end: End::Done,
        }),
        aligned(with_event(event, id, ledger, world)),
{
    lemma_application(event, id, ledger);
    let app = application(id, ledger, event);
    assert(unrecorded(app, world.records)) by {
        assert(app.leaf_event_id(0) == leaf_id(event, id, 0));
        assert forall|k: nat| k < app.leaves.len() implies !recorded(
            world.records,
            #[trigger] app.leaf_event_id(k),
        ) by {
            assert(app.leaf_event_id(k) == leaf_id(event, id, k));
        }
    }
    matching_event_is_applied(id, ledger, event, world, roots);
}

/// An event whose leaves do not follow those of the tree is refused and changes
/// nothing; one with another root than the tree has with its leaves is refused and not
/// recorded.
pub proof fn event_that_does_not_continue_is_refused(
    id: Seq<char>,
    ledger: u64,
    event: TreeEvent,
    world: World,
    roots: spec_fn(Seq<Seq<u8>>) -> Seq<u8>,
)
    requires
        is_new(event, id, world.records),
        world.leaves.len() <= u64::MAX,
        leaves_in(event).len() <= usize::MAX,
        index_in(event) + leaves_in(event).len() <= u64::MAX,
    ensures
        ({
            let out = run(application(id, ledger, event), world, roots);
            &&& world.leaves.len() != index_in(event) ==> out.world == world && (
            out.end matches End::Refused(fault) && fault is IndexMismatch)
            &&& world.leaves.len() == index_in(event) && roots(world.leaves + leaves_in(event))
                != root_in(event) ==> out.world.records == world.records && (
            out.end matches End::Refused(fault) && fault is RootMismatch)
        }),
{
    lemma_application(event, id, ledger);
    let app = application(id, ledger, event);
    assert(app.leaf_event_id(0) == leaf_id(event, id, 0));
    if world.leaves.len() != index_in(event) {
        event_out_of_order_is_refused(id, ledger, event, world, roots);
    } else if roots(world.leaves + leaves_in(event)) != root_in(event) {
        event_with_other_root_is_not_recorded(id, ledger, event, world, roots);
    }
}

/// What handling an event came to: what was started ran to its end, or nothing was to be
/// done.
pub open spec fn came_to(
    started: Option<EventApplication>,
    world: World,
    roots: spec_fn(Seq<Seq<u8>>) -> Seq<u8>,
) -> Run {
    match started {
        Some(application) => run(application@, world, roots),
        None => Run { world, end: End::Done },
    }
}

/// A reported event of the contract that stands for a tree event, is new and continues
/// the tree adds its leaves to the tree and is recorded under the id and the ledger that
/// it was reported with.
pub proof fn reported_event_is_recorded_under_its_id(
    event: RpcEvent,
    contract: &str,
    reply: Lookup,
    parsed: TreeEvent,
    world: World,
    roots: spec_fn(Seq<Seq<u8>>) -> Seq<u8>,
    out: Result<Option<EventApplication>, RpcEventError>,
)
    requires
        call_ensures(apply_rpc_event, (&event, contract, reply), out),
        event.contract_id@ == contract@,
        reported_tree_event(event@) == Ok::<Option<TreeEvent>, RpcEventFault>(Some(parsed)),
        looked_up(reply, world.records, event.id@),
        aligned(world),
        is_new(parsed, event.id@, world.records),
        continues(parsed, world, roots),
    ensures
        out matches Ok(started) && started is Some && came_to(started, world, roots) == (Run {
            world: with_event(parsed, event.id@, event.ledger as u64, world),
            end: End::Done,
        }),
{
    event_is_recorded_under_its_id(event.id@, event.ledger as u64, parsed, world, roots);
}

/// An event that was found in a ledger, is new and continues the tree adds its leaves to
/// the tree and is recorded under the id and the ledger that it was found with.
pub proof fn found_event_is_recorded_under_its_id(
    event: LocalLedgerEvent,
    reply: Lookup,
    world: World,
    roots: spec_fn(Seq<Seq<u8>>) -> Seq<u8>,
    started: Option<EventApplication>,
)
    requires
        call_ensures(apply_local_ledger_event, (event, reply), started),
        looked_up(reply, world.records, event.id@),
        aligned(world),
        is_new(event.parsed@, event.id@, world.records),
        continues(event.parsed@, world, roots),
    ensures
        started is Some,
        came_to(started, world, roots) == (Run {
            world: with_event(event.parsed@, event.id@, event.ledger as u64, world),
            end: End::Done,
        }),
{
    event_is_recorded_under_its_id(event.id@, event.ledger as u64, event.parsed@, world, roots);
}

/// An application of an event whose first leaf is recorded ends at once.
proof fn lemma_known(
    id: Seq<char>,
    ledger: u64,
    event: TreeEvent,
    world: World,
    roots: spec_fn(Seq<Seq<u8>>) -> Seq<u8>,
)
    requires
        recorded(world.records, leaf_id(event, id, 0)),
        !recorded(world.records, id),
        leaves_in(event).len() <= usize::MAX,
    ensures
        run(application(id, ledger, event), world, roots) == (Run { world, end: End::Done }),
{
    lemma_application(event, id, ledger);
    let app = application(id, ledger, event);
    assert(app.leaf_event_id(0) == leaf_id(event, id, 0));
    reveal_with_fuel(run, 2);
}

/// What is recorded of an event with leaves is found again, whatever was handled since.
proof fn lemma_stays_recorded(
    id: Seq<char>,
    ledger: u64,
    event: TreeEvent,
    world: World,
    roots: spec_fn(Seq<Seq<u8>>) -> Seq<u8>,
    others: Seq<Incoming>,
)
    requires
        leaves_in(event).len() > 0,
        in_memory(others),
    ensures
        recorded(
            handled_all(others, with_event(event, id, ledger, world), roots).world.records,
            leaf_id(event, id, 0),
        ),
{
    let after = with_event(event, id, ledger, world);
    let n = world.records.len() as int;
    assert(after.records[n] == recorded_as(event, id, ledger)[0]);
    assert(recorded(after.records, leaf_id(event, id, 0)));
    lemma_handling_keeps_records(others, after, roots, leaf_id(event, id, 0));
}

/// A reported event with leaves that was recorded changes nothing when it is reported
/// again, whatever events were handled in between.
pub proof fn reported_event_is_not_recorded_again(
    event: RpcEvent,
    contract: &str,
    reply: Lookup,
    parsed: TreeEvent,
    world: World,
    roots: spec_fn(Seq<Seq<u8>>) -> Seq<u8>,
    others: Seq<Incoming>,
    out: Result<Option<EventApplication>, RpcEventError>,
)
    requires
        event.contract_id@ == contract@,
        reported_tree_event(event@) == Ok::<Option<TreeEvent>, RpcEventFault>(Some(parsed)),
        0 < leaves_in(parsed).len() <= usize::MAX,
        in_memory(others),
        ({
            let later = handled_all(
                others,
                with_event(parsed, event.id@, event.ledger as u64, world),
                roots,
            ).world;
            &&& looked_up(reply, later.records, event.id@)
            &&& call_ensures(apply_rpc_event, (&event, contract, reply), out)
        }),
    ensures
        ({
            let later = handled_all(
                others,
                with_event(parsed, event.id@, event.ledger as u64, world),
                roots,
            ).world;
            out matches Ok(started) && came_to(started, later, roots) == (Run {
                world: later,
                end: End::Done,
            })
        }),
{
    let (id, ledger) = (event.id@, event.ledger as u64);
    let later = handled_all(others, with_event(parsed, id, ledger, world), roots).world;
    lemma_stays_recorded(id, ledger, parsed, world, roots, others);
    if !recorded(later.records, id) {
        lemma_known(id, ledger, parsed, later, roots);
    }
}

/// An event that was found in a ledger and recorded, with leaves, changes nothing when
/// it is found again, whatever events were handled in between.
pub proof fn found_event_is_not_recorded_again(
    event: LocalLedgerEvent,
    reply: Lookup,
    world: World,
    roots: spec_fn(Seq<Seq<u8>>) -> Seq<u8>,
    others: Seq<Incoming>,
    started: Option<EventApplication>,
)
    requires
        0 < leaves_in(event.parsed@).len() <= usize::MAX,
        in_memory(others),
        ({
            let later = handled_all(
                others,
                with_event(event.parsed@, event.id@, event.ledger as u64, world),
                roots,
            ).world;
            &&& looked_up(reply, later.records, event.id@)
            &&& call_ensures(apply_local_ledger_event, (event, reply), started)
        }),
    ensures
        ({
            let later = handled_all(
                others,
                with_event(event.parsed@, event.id@, event.ledger as u64, world),
                roots,
            ).world;
            came_to(started, later, roots) == (Run { world: later, end: End::Done })
        }),
{
    let (id, ledger) = (event.id@, event.ledger as u64);
    let later = handled_all(others, with_event(event.parsed@, id, ledger, world), roots).world;
    lemma_stays_recorded(id, ledger, event.parsed@, world, roots, others);
    if !recorded(later.records, id) {
        lemma_known(id, ledger, event.parsed@, later, roots);
    }
}

/// No character of the id is a number sign.
pub open spec fn is_plain_id(id: Seq<char>) -> bool {
    forall|i: int| 0 <= i < id.len() ==> (#[trigger] id[i]) != '#'
}

proof fn lemma_leaf_id_parts(a: TreeEvent, b: TreeEvent, x: Seq<char>, y: Seq<char>, j: nat, k: nat)
    requires
        is_plain_id(x),
        is_plain_id(y),
        leaf_id(a, x, j) == leaf_id(b, y, k),
    ensures
        x == y,
{
    reveal_strlit("#");
    let s = leaf_id(a, x, j);
    let t = leaf_id(b, y, k);
    assert(x =~= s.subrange(0, x.len() as int));
    assert(y =~= t.subrange(0, y.len() as int));
    if x.len() < s.len() {
        assert(s[x.len() as int] == '#');
    }
    if y.len() < t.len() {
        assert(t[y.len() as int] == '#');
    }
    if x.len() < y.len() {
        assert(y[x.len() as int] == t[x.len() as int]);
    }
    if y.len() < x.len() {
        assert(x[y.len() as int] == s[y.len() as int]);
    }
}

/// An event stays new when another with a different id is recorded.
pub proof fn events_with_different_ids_do_not_meet(
    a: TreeEvent,
    b: TreeEvent,
    id: Seq<char>,
    other_id: Seq<char>,
    other_ledger: u64,
    world: World,
)
    requires
        is_plain_id(id),
        is_plain_id(other_id),
        id != other_id,
        is_new(a, id, world.records),
    ensures
        is_new(a, id, with_event(b, other_id, other_ledger, world).records),
{
    let ours = recorded_as(b, other_id, other_ledger);
    let all = world.records + ours;
    assert forall|name: Seq<char>|
        !recorded(world.records, name) && (name == id || exists|k: nat|
            #[trigger] leaf_id(a, id, k) == name) implies !(#[trigger] recorded(all, name)) by {
        if recorded(all, name) {
            let i = choose|i: int| 0 <= i < all.len() && (#[trigger] all[i]).event_id == name;
            if i < world.records.len() {
                assert(world.records[i].event_id == name);
            } else {
                let k = (i - world.records.len()) as nat;
                assert(all[i] == ours[k as int]);
                assert(leaf_id(b, other_id, k) == name);
                if name == id {
                    let plain = TreeEvent::Deposit { index: 0, leaf: seq![], root: seq![] };
                    assert(leaf_id(plain, id, 0) == id);
                    lemma_leaf_id_parts(plain, b, id, other_id, 0, k);
                } else {
                    let j = choose|j: nat| #[trigger] leaf_id(a, id, j) == name;
                    lemma_leaf_id_parts(a, b, id, other_id, j, k);
                }
            }
        }
    }
}

/// Two reported events with different ids are both recorded, each under its own id.
pub proof fn reported_events_are_both_recorded(
    first: RpcEvent,
    second: RpcEvent,
    contract: &str,
    replies: (Lookup, Lookup),
    parsed: (TreeEvent, TreeEvent),
    world: World,
    roots: spec_fn(Seq<Seq<u8>>) -> Seq<u8>,
    outs: (
        Result<Option<EventApplication>, RpcEventError>,
        Result<Option<EventApplication>, RpcEventError>,
    ),
)
    requires
        call_ensures(apply_rpc_event, (&first, contract, replies.0), outs.0),
        call_ensures(apply_rpc_event, (&second, contract, replies.1), outs.1),
        first.contract_id@ == contract@,
        second.contract_id@ == contract@,
        is_plain_id(first.id@),
        is_plain_id(second.id@),
        first.id@ != second.id@,
        reported_tree_event(first@) == Ok::<Option<TreeEvent>, RpcEventFault>(Some(parsed.0)),
        reported_tree_event(second@) == Ok::<Option<TreeEvent>, RpcEventFault>(Some(parsed.1)),
        aligned(world),
        is_new(parsed.0, first.id@, world.records),
        is_new(parsed.1, second.id@, world.records),
        continues(parsed.0, world, roots),
        ({
            let next = with_event(parsed.0, first.id@, first.ledger as u64, world);
            &&& continues(parsed.1, next, roots)
            &&& looked_up(replies.0, world.records, first.id@)
            &&& looked_up(replies.1, next.records, second.id@)
        }),
    ensures
        ({
            let next = with_event(parsed.0, first.id@, first.ledger as u64, world);
            &&& outs.0 matches Ok(started) && came_to(started, world, roots).world == next
            &&& outs.1 matches Ok(started) && came_to(started, next, roots).world == with_event(
                parsed.1,
                second.id@,
                second.ledger as u64,
                next,
            )
        }),
{
    event_is_recorded_under_its_id(first.id@, first.ledger as u64, parsed.0, world, roots);
    let next = with_event(parsed.0, first.id@, first.ledger as u64, world);
    events_with_different_ids_do_not_meet(
        parsed.1,
        parsed.0,
        second.id@,
        first.id@,
        first.ledger as u64,
        world,
    );
    event_is_recorded_under_its_id(second.id@, second.ledger as u64, parsed.1, next, roots);
}

/// A reported event of another contract, one that is recorded, and one that is no tree
/// event start nothing; one of the contract that is not read is an error.
pub proof fn other_reported_events_are_passed_over(
    event: RpcEvent,
    contract: &str,
    reply: Lookup,
    out: Result<Option<EventApplication>, RpcEventError>,
)
    requires
        call_ensures(apply_rpc_event, (&event, contract, reply), out),
    ensures
        event.contract_id@ != contract@ ==> (out matches Ok(started) && started is None),
        reply is Found ==> (out matches Ok(started) && started is None),
        reported_tree_event(event@) == Ok::<Option<TreeEvent>, RpcEventFault>(None) ==> (
        out matches Ok(started) && started is None),
        event.contract_id@ == contract@ && !(reply is Found) && reported_tree_event(event@) is Err
            ==> out is Err,
{
}

/// The last request that an application makes before it ends, after one that was made
/// before.
pub open spec fn last_request(
    app: Application,
    world: World,
    roots: spec_fn(Seq<Seq<u8>>) -> Seq<u8>,
    before: Option<Request>,
) -> Option<Request>
    decreases steps_left(app),
    when app.leaves.len() <= usize::MAX
{
    match answered(world, roots, app.request()) {
        Some((next, reply)) => match app.resumed(reply) {
            Ok(after) => last_request(after, next, roots, Some(app.request())),
            Err(_) => Some(app.request()),
        },
        None => before,
    }
}

/// The state is saved after the leaves of an event were recorded: the last thing that an
/// application asks for before it ends is to save, unless its event was known.
pub proof fn applied_events_are_saved(
    id: Seq<char>,
    ledger: u64,
    event: TreeEvent,
    world: World,
    roots: spec_fn(Seq<Seq<u8>>) -> Seq<u8>,
)
    requires
        aligned(world),
        is_new(event, id, world.records),
        continues(event, world, roots),
    ensures
        last_request(application(id, ledger, event), world, roots, None) == Some(Request::Save),
{
    event_is_recorded_under_its_id(id, ledger, event, world, roots);
    let app = application(id, ledger, event);
    lemma_application(event, id, ledger);
    assert(app.leaf_event_id(0) == leaf_id(event, id, 0));
    if app.stage is Known {
        let after = Application { stage: Stage::Count, ..app };
        assert(answered(world, roots, app.request()) == Some((world, Reply::Known(false))));
        assert(app.resumed(Reply::Known(false)) == Ok::<Application, ApplyFault>(after));
        lemma_saves(after, world, roots, Some(app.request()));
    } else {
        lemma_saves(app, world, roots, None);
    }
}

/// An application past the question whether its event is known saves last.
proof fn lemma_saves(
    app: Application,
    world: World,
    roots: spec_fn(Seq<Seq<u8>>) -> Seq<u8>,
    before: Option<Request>,
)
    requires
        app.leaves.len() <= usize::MAX,
        run(app, world, roots).end is Done,
        !(app.stage is Known),
        app.stage is Done ==> before == Some(Request::Save),
    ensures
        last_request(app, world, roots, before) == Some(Request::Save),
    decreases steps_left(app),
{
    match answered(world, roots, app.request()) {
        Some((next, reply)) => match app.resumed(reply) {
            Ok(after) => {
                lemma_saves(after, next, roots, Some(app.request()));
            },
            Err(_) => {},
        },
        None => {},
    }
}

/// A tree has room for the leaves of an event if and only if the event does not start where
/// the tree ends or their indices fit 64 bits.
pub proof fn room_is_for_indices_of_64_bits(
    application: EventApplication,
    event: TreeEvent,
    id: &str,
    ledger: u64,
    parsed: MixerTreeEvent,
    leaf_count: u64,
    room: bool,
)
    requires
        call_ensures(
            EventApplication::apply_parsed_tree_event,
            (id, ledger, parsed),
            application,
        ),
        parsed@ == event,
        call_ensures(EventApplication::has_room, (&application, leaf_count), room),
    ensures
        room <==> leaf_count != index_in(event) || leaf_count + leaves_in(event).len() <= u64::MAX,
{
    lemma_application(event, id@, ledger);
}

/// A leaf that the tree put elsewhere than the event says is refused, and the application
/// stays where it is.
pub proof fn misplaced_leaf_is_refused(
    application: &mut EventApplication,
    offset: usize,
    got: u64,
    out: Result<(), ApplyError>,
)
    requires
        old(application)@.stage == (Stage::Append { offset }),
        call_ensures(EventApplication::resume, (application, ApplyReply::Appended(got)), out),
        got != old(application)@.start_index + offset,
    ensures
        out matches Err(error) && error is AppendMismatch,
        final(application)@ == old(application)@,
{
}

/// Another root than the event's is refused, whatever the event's kind, and the application
/// stays where it is.
pub proof fn other_root_is_refused(
    application: &mut EventApplication,
    root: TreeHash,
    out: Result<(), ApplyError>,
)
    requires
        old(application)@.stage == Stage::Root,
        call_ensures(EventApplication::resume, (application, ApplyReply::Root(root)), out),
    ensures
        out is Ok <==> root@ == old(application)@.root,
        out matches Err(error) ==> error is RootMismatch && final(application)@
            == old(application)@,
{
}

/// Reported events are handled one after the other, up to the first that is refused or not
/// read.
pub open spec fn handled_reports(
    events: Seq<ReportedEvent>,
    contract: Seq<char>,
    world: World,
    roots: spec_fn(Seq<Seq<u8>>) -> Seq<u8>,
) -> Run
    decreases events.len(),
{
    if events.len() == 0 {
        Run { world, end: End::Done }
    } else {
        let known = recorded(world.records, events[0].id);
        let first = match reported_application(events[0], contract, known) {
            Ok(Some(application)) => run(application, world, roots),
            Ok(None) => Run { world, end: End::Done },
            Err(_) => Run { world, end: End::NotRecorded },
        };
        match first.end {
            End::Done => handled_reports(events.drop_first(), contract, first.world, roots),
            _ => first,
        }
    }
}

/// The tree events of the contract among reported events, in order, each with the id and
/// the ledger that it was reported with.
pub open spec fn tree_events_in(events: Seq<ReportedEvent>, contract: Seq<char>) -> Seq<Incoming>
    decreases events.len(),
{
    if events.len() == 0 {
        Seq::empty()
    } else {
        let rest = tree_events_in(events.drop_first(), contract);
        match reported_tree_event(events[0]) {
            Ok(Some(event)) => if events[0].contract_id == contract {
                seq![Incoming { id: events[0].id, ledger: events[0].ledger as u64, event }] + rest
            } else {
                rest
            },
            _ => rest,
        }
    }
}

/// Handling reported events, all of which are read, is handling the tree events of the
/// contract among them. Where these fit one after the other, the tree has their leaves in
/// the order in which they were reported and the root of the last, and all are recorded.
pub proof fn reported_events_rebuild_the_tree(
    events: Seq<ReportedEvent>,
    contract: Seq<char>,
    world: World,
    roots: spec_fn(Seq<Seq<u8>>) -> Seq<u8>,
)
    requires
        aligned(world),
        forall|i: int|
            0 <= i < events.len() ==> reported_tree_event(#[trigger] events[i]) is Ok,
        all_fit(tree_events_in(events, contract), world, roots),
    ensures
        ({
            let emitted = tree_events_in(events, contract);
            let end = handled_reports(events, contract, world, roots);
            &&& end.end is Done
            &&& end.world.leaves == world.leaves + all_leaves(emitted)
            &&& aligned(end.world)
            &&& emitted.len() > 0 ==> roots(end.world.leaves) == emitted.last().app().root
        }),
{
    lemma_reports(events, contract, world, roots);
    events_in_order_rebuild_the_tree(tree_events_in(events, contract), world, roots);
}

proof fn lemma_reports(
    events: Seq<ReportedEvent>,
    contract: Seq<char>,
    world: World,
    roots: spec_fn(Seq<Seq<u8>>) -> Seq<u8>,
)
    requires
        forall|i: int|
            0 <= i < events.len() ==> reported_tree_event(#[trigger] events[i]) is Ok,
    ensures
        handled_reports(events, contract, world, roots) == handled_all(
            tree_events_in(events, contract),
            world,
            roots,
        ),
    decreases events.len(),
{
    if events.len() > 0 {
        let rest = events.drop_first();
        assert forall|i: int| 0 <= i < rest.len() implies reported_tree_event(
            #[trigger] rest[i],
        ) is Ok by {
            assert(rest[i] == events[i + 1]);
        }
        assert(reported_tree_event(events[0]) is Ok);
        let later = tree_events_in(rest, contract);
        match reported_tree_event(events[0]) {
            Ok(Some(event)) => {
                if events[0].contract_id == contract {
                    let first = Incoming {
                        id: events[0].id,
                        ledger: events[0].ledger as u64,
                        event,
                    };
                    let all = seq![first] + later;
                    assert(all.drop_first() =~= later);
                    let next = handled(first.id, first.ledger, first.event, world, roots);
                    lemma_reports(rest, contract, next.world, roots);
                } else {
                    lemma_reports(rest, contract, world, roots);
                }
            },
            _ => {
                lemma_reports(rest, contract, world, roots);
            },
        }
    }
}

} // verus!
