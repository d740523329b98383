//! What applying an event comes to, as a whole.
use vstd::prelude::*;
use vstd::string::*;

use crate::apply::{application, Application, ApplyFault, LeafSource, Reply, Request, Stage};
use crate::events::TreeEvent;
use crate::state_laws::{
    appending_adds_one_leaf, holds, known_events_are_recorded, knows_event, leaves_of, put_all,
    rebuilding_gives_back_leaves, rebuilt_leaves, recorded, LeafRecord,
};
use crate::state_store::{append_writes, with_next_leaf, MetadataView, StoreFault, StoredValue};
use crate::text::{decimal, decimal_is_injective};

verus! {

/// A tree and the records of its leaves.
pub struct World {
    pub leaves: Seq<Seq<u8>>,
    pub records: Seq<LeafRecord>,
}

/// The recorded leaves are those of the tree, in the same order.
pub open spec fn aligned(world: World) -> bool {
    leaves_of(world.records) == world.leaves
}

/// What a request does, and the reply to it. A leaf whose event is recorded is not
/// recorded again; one that is not the next is refused. `roots` says which root a
/// tree of given leaves has.
pub open spec fn answered(
    world: World,
    roots: spec_fn(Seq<Seq<u8>>) -> Seq<u8>,
    request: Request,
) -> Option<(World, Reply)> {
    match request {
        Request::IsKnown(id) => Some((world, Reply::Known(recorded(world.records, id)))),
        Request::LeafCount => Some((world, Reply::LeafCount(world.leaves.len() as u64))),
        Request::AppendLeaf(leaf) => Some(
            (
                World { leaves: world.leaves.push(leaf), ..world },
                Reply::Appended(world.leaves.len() as u64),
            ),
        ),
        Request::Root => Some((world, Reply::Root(roots(world.leaves)))),
        Request::Record { index, leaf, event_id, ledger, source } => if recorded(
            world.records,
            event_id,
        ) {
            Some((world, Reply::Recorded))
        } else if index != world.records.len() {
            None
        } else {
            Some(
                (
                    World {
                        records: world.records.push(
                            LeafRecord { leaf, event_id, ledger, source: source.text() },
                        ),
                        ..world
                    },
                    Reply::Recorded,
                ),
            )
        },
        Request::Save => Some((world, Reply::Saved)),
        Request::Done => None,
    }
}

/// How an application ends.
pub enum End {
    Done,
    /// The event was refused.
    Refused(ApplyFault),
    /// A leaf was not recorded.
    NotRecorded,
}

/// An application that has ended.
pub struct Run {
    pub world: World,
    pub end: End,
}

/// How many requests an application still makes, at most.
pub open spec fn steps_left(app: Application) -> nat {
    let n = app.leaves.len();
    match app.stage {
        Stage::Known => 2 * n + 5,
        Stage::Count => 2 * n + 4,
        Stage::Append { offset } => if offset < n {
            (2 * n + 3 - offset) as nat
        } else {
            n + 3
        },
        Stage::Root => n + 2,
        Stage::Record { offset } => if offset < n {
            (n + 1 - offset) as nat
        } else {
            2
        },
        Stage::Save => 1,
        Stage::Done => 0,
    }
}

/// The application goes on to its end.
pub open spec fn run(
    app: Application,
    world: World,
    roots: spec_fn(Seq<Seq<u8>>) -> Seq<u8>,
) -> Run
    decreases steps_left(app),
    when app.leaves.len() <= usize::MAX
{
    match answered(world, roots, app.request()) {
        Some((next, reply)) => match app.resumed(reply) {
            Ok(after) => run(after, next, roots),
            Err(fault) => Run { world: next, end: End::Refused(fault) },
        },
        None => if app.stage == Stage::Done {
            Run { world, end: End::Done }
        } else {
            Run { world, end: End::NotRecorded }
        },
    }
}

/// What is recorded of an event.
pub open spec fn event_records(app: Application) -> Seq<LeafRecord> {
    Seq::new(
        app.leaves.len(),
        |k: int|
            LeafRecord {
                leaf: app.leaves[k],
                event_id: app.leaf_event_id(k as nat),
                ledger: app.ledger,
                source: app.source.text(),
            },
    )
}

/// No leaf of the event is recorded.
pub open spec fn unrecorded(app: Application, records: Seq<LeafRecord>) -> bool {
    &&& !recorded(records, app.leaf_event_id(0))
    &&& forall|k: nat|
        k < app.leaves.len() ==> !recorded(records, #[trigger] app.leaf_event_id(k))
}

/// The event's leaves follow those of the tree, and their number fits the machine.
pub open spec fn follows(app: Application, world: World) -> bool {
    &&& app.leaves.len() <= usize::MAX
    &&& world.leaves.len() == app.start_index
    &&& app.start_index + app.leaves.len() <= u64::MAX
}

/// The tree with the event's leaves.
pub open spec fn grown(app: Application, world: World) -> Seq<Seq<u8>> {
    world.leaves + app.leaves
}

proof fn lemma_leaf_ids_distinct(app: Application, j: nat, k: nat)
    requires
        app.source == LeafSource::Transfer,
        app.leaf_event_id(j) == app.leaf_event_id(k),
    ensures
        j == k,
{
    let s = app.leaf_event_id(j);
    let front = app.event_id + "#"@;
    assert(decimal(j) =~= s.subrange(front.len() as int, s.len() as int));
    assert(decimal(k) =~= s.subrange(front.len() as int, s.len() as int));
    decimal_is_injective(j, k);
}

proof fn lemma_appending(
    app: Application,
    base: World,
    roots: spec_fn(Seq<Seq<u8>>) -> Seq<u8>,
    offset: nat,
)
    requires
        follows(app, base),
        offset <= app.leaves.len(),
        app.stage == app.append_stage(offset),
    ensures
        run(
            app,
            World { leaves: base.leaves + app.leaves.subrange(0, offset as int), ..base },
            roots,
        ) == run(
            Application { stage: Stage::Root, ..app },
            World { leaves: grown(app, base), ..base },
            roots,
        ),
    decreases app.leaves.len() - offset,
{
    if offset == app.leaves.len() {
        assert(app.leaves.subrange(0, offset as int) =~= app.leaves);
    } else {
        let world = World { leaves: base.leaves + app.leaves.subrange(0, offset as int), ..base };
        let next = Application { stage: app.append_stage(offset + 1), ..app };
        assert(world.leaves.push(app.leaves[offset as int]) =~= base.leaves + app.leaves.subrange(
            0,
            offset as int + 1,
        ));
        assert(app.resumed(Reply::Appended(world.leaves.len() as u64)) == Ok::<
            Application,
            ApplyFault,
        >(next));
        lemma_appending(next, base, roots, offset + 1);
    }
}

proof fn lemma_recording(
    app: Application,
    base: World,
    roots: spec_fn(Seq<Seq<u8>>) -> Seq<u8>,
    offset: nat,
)
    requires
        app.leaves.len() <= usize::MAX,
        base.records.len() == app.start_index,
        app.start_index + app.leaves.len() <= u64::MAX,
        offset <= app.leaves.len(),
        app.stage == app.record_stage(offset),
        app.leaves.len() > 1 ==> app.source == LeafSource::Transfer,
        unrecorded(app, base.records),
    ensures
        run(
            app,
            World {
                records: base.records + event_records(app).subrange(0, offset as int),
                ..base
            },
            roots,
        ) == (Run {
            world: World { records: base.records + event_records(app), ..base },
            end: End::Done,
        }),
    decreases app.leaves.len() - offset,
{
    let ours = event_records(app);
    let world = World { records: base.records + ours.subrange(0, offset as int), ..base };
    if offset == app.leaves.len() {
        assert(ours.subrange(0, offset as int) =~= ours);
        reveal_with_fuel(run, 3);
    } else {
        let next = Application { stage: app.record_stage(offset + 1), ..app };
        let id = app.leaf_event_id(offset);
        assert(!recorded(world.records, id)) by {
            if recorded(world.records, id) {
                let i = choose|i: int|
                    0 <= i < world.records.len() && (#[trigger] world.records[i]).event_id == id;
                if i < base.records.len() {
                    assert(base.records[i].event_id == id);
                    assert(recorded(base.records, id));
                } else {
                    let k = (i - base.records.len()) as nat;
                    assert(world.records[i] == ours[k as int]);
                    lemma_leaf_ids_distinct(app, k, offset);
                }
            }
        }
        assert(world.records.push(ours[offset as int]) =~= base.records + ours.subrange(
            0,
            offset as int + 1,
        ));
        assert(event_records(next) =~= ours);
        assert(unrecorded(next, base.records)) by {
            assert forall|k: nat| k < next.leaves.len() implies !recorded(
                base.records,
                #[trigger] next.leaf_event_id(k),
            ) by {
                assert(next.leaf_event_id(k) == app.leaf_event_id(k));
            }
        }
        lemma_recording(next, base, roots, offset + 1);
    }
}

/// An event that is not recorded is at its count of the tree.
proof fn lemma_started(
    app: Application,
    world: World,
    roots: spec_fn(Seq<Seq<u8>>) -> Seq<u8>,
)
    requires
        app.leaves.len() <= usize::MAX,
        app.stage == (if app.source == LeafSource::Transfer {
            Stage::Known
        } else {
            Stage::Count
        }),
        !recorded(world.records, app.leaf_event_id(0)),
    ensures
        run(app, world, roots) == run(Application { stage: Stage::Count, ..app }, world, roots),
{
}

/// The leaves of an event that follows the tree are added to it before the root is
/// compared.
proof fn lemma_at_root(
    app: Application,
    world: World,
    roots: spec_fn(Seq<Seq<u8>>) -> Seq<u8>,
)
    requires
        follows(app, world),
        app.stage == (if app.source == LeafSource::Transfer {
            Stage::Known
        } else {
            Stage::Count
        }),
        !recorded(world.records, app.leaf_event_id(0)),
    ensures
        run(app, world, roots) == run(
            Application { stage: Stage::Root, ..app },
            World { leaves: grown(app, world), ..world },
            roots,
        ),
{
    lemma_started(app, world, roots);
    let counted = Application { stage: Stage::Count, ..app };
    let next = Application { stage: app.append_stage(0), ..app };
    assert(world.leaves + app.leaves.subrange(0, 0) =~= world.leaves);
    lemma_appending(next, world, roots, 0);
    assert(counted.resumed(Reply::LeafCount(world.leaves.len() as u64)) == Ok::<
        Application,
        ApplyFault,
    >(next));
}

/// Applying an event that follows the tree, whose root is that of the tree with
/// its leaves and that is not recorded, adds its leaves to the tree and records
/// each of them, in order. The recorded leaves stay those of the tree.
pub proof fn matching_event_is_applied(
    event_id: Seq<char>,
    ledger: u64,
    event: TreeEvent,
    world: World,
    roots: spec_fn(Seq<Seq<u8>>) -> Seq<u8>,
)
    requires
        aligned(world),
        follows(application(event_id, ledger, event), world),
        unrecorded(application(event_id, ledger, event), world.records),
        roots(grown(application(event_id, ledger, event), world)) == application(
            event_id,
            ledger,
            event,
        ).root,
    ensures
        ({
            let app = application(event_id, ledger, event);
            let after = World {
                leaves: grown(app, world),
                records: world.records + event_records(app),
            };
            &&& run(app, world, roots) == (Run { world: after, end: End::Done })
            &&& aligned(after)
        }),
{
    let app = application(event_id, ledger, event);
    let base = World { leaves: grown(app, world), ..world };
    lemma_at_root(app, world, roots);
    let at_root = Application { stage: Stage::Root, ..app };
    let next = Application { stage: app.record_stage(0), ..app };
    let ours = event_records(app);
    assert(event_records(next) =~= ours);
    assert(unrecorded(next, base.records)) by {
        assert(next.leaf_event_id(0) == app.leaf_event_id(0));
        assert forall|k: nat| k < next.leaves.len() implies !recorded(
            base.records,
            #[trigger] next.leaf_event_id(k),
        ) by {
            assert(next.leaf_event_id(k) == app.leaf_event_id(k));
        }
    }
    assert(base.records + ours.subrange(0, 0) =~= base.records);
    lemma_recording(next, base, roots, 0);
    assert(at_root.resumed(Reply::Root(app.root)) == Ok::<Application, ApplyFault>(next));
    assert(leaves_of(world.records + ours) =~= world.leaves + app.leaves);
}

/// An event whose leaves do not follow those of the tree is refused, and nothing
/// changes.
pub proof fn event_out_of_order_is_refused(
    event_id: Seq<char>,
    ledger: u64,
    event: TreeEvent,
    world: World,
    roots: spec_fn(Seq<Seq<u8>>) -> Seq<u8>,
)
    requires
        application(event_id, ledger, event).leaves.len() <= usize::MAX,
        world.leaves.len() <= u64::MAX,
        world.leaves.len() != application(event_id, ledger, event).start_index,
        !recorded(world.records, application(event_id, ledger, event).leaf_event_id(0)),
    ensures
        ({
            let app = application(event_id, ledger, event);
            run(app, world, roots) == (Run {
                world,
                end: End::Refused(
                    ApplyFault::IndexMismatch {
                        source: app.source,
                        event_id,
                        next: world.leaves.len() as u64,
                        index: app.start_index,
                    },
                ),
            })
        }),
{
    lemma_started(application(event_id, ledger, event), world, roots);
}

/// An event with another root than the tree has with its leaves is refused, and
/// none of its leaves is recorded.
pub proof fn event_with_other_root_is_not_recorded(
    event_id: Seq<char>,
    ledger: u64,
    event: TreeEvent,
    world: World,
    roots: spec_fn(Seq<Seq<u8>>) -> Seq<u8>,
)
    requires
        follows(application(event_id, ledger, event), world),
        !recorded(world.records, application(event_id, ledger, event).leaf_event_id(0)),
        roots(grown(application(event_id, ledger, event), world)) != application(
            event_id,
            ledger,
            event,
        ).root,
    ensures
        ({
            let app = application(event_id, ledger, event);
            run(app, world, roots) == (Run {
                world: World { leaves: grown(app, world), ..world },
                end: End::Refused(
                    ApplyFault::RootMismatch {
                        source: app.source,
                        event_id,
                        local: roots(grown(app, world)),
                        event: app.root,
                    },
                ),
            })
        }),
{
    lemma_at_root(application(event_id, ledger, event), world, roots);
}

/// What is done about an event: nothing where its id is recorded.
pub open spec fn handled(
    event_id: Seq<char>,
    ledger: u64,
    event: TreeEvent,
    world: World,
    roots: spec_fn(Seq<Seq<u8>>) -> Seq<u8>,
) -> Run {
    if recorded(world.records, event_id) {
        Run { world, end: End::Done }
    } else {
        run(application(event_id, ledger, event), world, roots)
    }
}

/// An event that comes in.
pub struct Incoming {
    pub id: Seq<char>,
    pub ledger: u64,
    pub event: TreeEvent,
}

impl Incoming {
    /// The application of the event.
    pub open spec fn app(self) -> Application {
        application(self.id, self.ledger, self.event)
    }

    /// The event is not recorded, its leaves follow those of the tree, and its root
    /// is that of the tree with them.
    pub open spec fn fits(self, world: World, roots: spec_fn(Seq<Seq<u8>>) -> Seq<u8>) -> bool {
        &&& !recorded(world.records, self.id)
        &&& unrecorded(self.app(), world.records)
        &&& follows(self.app(), world)
        &&& roots(grown(self.app(), world)) == self.app().root
    }

    /// The tree with the event's leaves, and the records with theirs.
    pub open spec fn added(self, world: World) -> World {
        World {
            leaves: grown(self.app(), world),
            records: world.records + event_records(self.app()),
        }
    }
}

/// Each event fits the tree that those before it have made.
pub open spec fn all_fit(
    events: Seq<Incoming>,
    world: World,
    roots: spec_fn(Seq<Seq<u8>>) -> Seq<u8>,
) -> bool
    decreases events.len(),
{
    events.len() == 0 || (events[0].fits(world, roots) && all_fit(
        events.drop_first(),
        events[0].added(world),
        roots,
    ))
}

/// Events are handled one after the other, up to the first that is refused.
pub open spec fn handled_all(
    events: Seq<Incoming>,
    world: World,
    roots: spec_fn(Seq<Seq<u8>>) -> Seq<u8>,
) -> Run
    decreases events.len(),
{
    if events.len() == 0 {
        Run { world, end: End::Done }
    } else {
        let first = handled(events[0].id, events[0].ledger, events[0].event, world, roots);
        match first.end {
            End::Done => handled_all(events.drop_first(), first.world, roots),
            _ => first,
        }
    }
}

/// Going on with an application keeps what is recorded.
proof fn lemma_run_keeps_records(
    app: Application,
    world: World,
    roots: spec_fn(Seq<Seq<u8>>) -> Seq<u8>,
    event_id: Seq<char>,
)
    requires
        app.leaves.len() <= usize::MAX,
        recorded(world.records, event_id),
    ensures
        recorded(run(app, world, roots).world.records, event_id),
    decreases steps_left(app),
{
    match answered(world, roots, app.request()) {
        Some((next, reply)) => {
            let i = choose|i: int|
                0 <= i < world.records.len() && (#[trigger] world.records[i]).event_id == event_id;
            assert(next.records[i] == world.records[i]);
            match app.resumed(reply) {
                Ok(after) => {
                    lemma_run_keeps_records(after, next, roots, event_id);
                },
                Err(_) => {},
            }
        },
        None => {},
    }
}

/// Handling events keeps what is recorded.
pub(crate) proof fn lemma_handling_keeps_records(
    events: Seq<Incoming>,
    world: World,
    roots: spec_fn(Seq<Seq<u8>>) -> Seq<u8>,
    event_id: Seq<char>,
)
    requires
        in_memory(events),
        recorded(world.records, event_id),
    ensures
        recorded(handled_all(events, world, roots).world.records, event_id),
    decreases events.len(),
{
    if events.len() > 0 {
        let first = events[0];
        lemma_run_keeps_records(first.app(), world, roots, event_id);
        let next = handled(first.id, first.ledger, first.event, world, roots).world;
        let rest = events.drop_first();
        assert forall|i: int| 0 <= i < rest.len() implies (#[trigger] rest[i]).app().leaves.len()
            <= usize::MAX by {
            assert(rest[i] == events[i + 1]);
        }
        lemma_handling_keeps_records(rest, next, roots, event_id);
    }
}

/// The numbers of the events' leaves fit the machine.
pub open spec fn in_memory(events: Seq<Incoming>) -> bool {
    forall|i: int|
        0 <= i < events.len() ==> (#[trigger] events[i]).app().leaves.len() <= usize::MAX
}

/// An event that was applied changes nothing when it comes again, whatever events
/// were handled in between. Of an event without leaves nothing is recorded: it
/// changes nothing when it comes again at once.
pub proof fn applied_event_is_not_applied_again(
    event: Incoming,
    world: World,
    roots: spec_fn(Seq<Seq<u8>>) -> Seq<u8>,
    others: Seq<Incoming>,
)
    requires
        aligned(world),
        follows(event.app(), world),
        unrecorded(event.app(), world.records),
        roots(grown(event.app(), world)) == event.app().root,
        in_memory(others),
        event.app().leaves.len() > 0 || others.len() == 0,
    ensures
        ({
            let applied = run(event.app(), world, roots).world;
            let later = handled_all(others, applied, roots).world;
            handled(event.id, event.ledger, event.event, later, roots) == (Run {
                world: later,
                end: End::Done,
            })
        }),
{
    let app = event.app();
    matching_event_is_applied(event.id, event.ledger, event.event, world, roots);
    let applied = run(app, world, roots).world;
    let ours = event_records(app);
    if app.leaves.len() > 0 {
        let first = applied.records[world.records.len() as int];
        assert(first == ours[0]);
        assert(first.event_id == app.leaf_event_id(0));
        assert(recorded(applied.records, app.leaf_event_id(0)));
        lemma_handling_keeps_records(others, applied, roots, app.leaf_event_id(0));
        reveal_with_fuel(run, 2);
    } else {
        assert(applied.records =~= world.records);
        assert(grown(app, world) =~= world.leaves);
        assert(applied == world);
    }
}

/// The leaves of events, in order.
pub open spec fn all_leaves(events: Seq<Incoming>) -> Seq<Seq<u8>>
    decreases events.len(),
{
    if events.len() == 0 {
        Seq::empty()
    } else {
        events[0].app().leaves + all_leaves(events.drop_first())
    }
}

/// Events that fit one after the other make a tree of their leaves, in order, whose
/// root is that of the last event, and whose leaves are all recorded.
pub proof fn events_in_order_rebuild_the_tree(
    events: Seq<Incoming>,
    world: World,
    roots: spec_fn(Seq<Seq<u8>>) -> Seq<u8>,
)
    requires
        aligned(world),
        all_fit(events, world, roots),
    ensures
        handled_all(events, world, roots).end is Done,
        handled_all(events, world, roots).world.leaves == world.leaves + all_leaves(events),
        aligned(handled_all(events, world, roots).world),
        events.len() > 0 ==> roots(world.leaves + all_leaves(events)) == events.last().app().root,
    decreases events.len(),
{
    if events.len() == 0 {
        assert(world.leaves + all_leaves(events) =~= world.leaves);
    } else {
        let first = events[0];
        let rest = events.drop_first();
        let next = first.added(world);
        matching_event_is_applied(first.id, first.ledger, first.event, world, roots);
        events_in_order_rebuild_the_tree(rest, next, roots);
        assert(next.leaves + all_leaves(rest) =~= world.leaves + all_leaves(events));
        if rest.len() == 0 {
            assert(next.leaves + all_leaves(rest) =~= next.leaves);
        } else {
            assert(rest.last() == events.last());
        }
    }
}

/// What the state writes for a leaf is what recording it means: nothing for an
/// event that is recorded, a refusal for a leaf that is not the next, else the leaf
/// behind those that are recorded.
pub proof fn recording_is_what_the_state_writes(
    db: Map<Seq<u8>, StoredValue>,
    metadata: MetadataView,
    world: World,
    roots: spec_fn(Seq<Seq<u8>>) -> Seq<u8>,
    index: u64,
    record: LeafRecord,
    source: LeafSource,
)
    requires
        holds(db, metadata, world.records),
        metadata.leaf_count < u64::MAX,
        record.leaf.len() == 32,
        record.source == source.text(),
    ensures
        ({
            let request = Request::Record {
                index,
                leaf: record.leaf,
                event_id: record.event_id,
                ledger: record.ledger,
                source,
            };
            let after = World { records: world.records.push(record), ..world };
            match append_writes(
                metadata,
                knows_event(db, record.event_id),
                index,
                record.leaf,
                record.event_id,
                record.ledger,
                record.source,
            ) {
                Ok(None) => answered(world, roots, request) == Some((world, Reply::Recorded)),
                Ok(Some(writes)) => {
                    &&& answered(world, roots, request) == Some((after, Reply::Recorded))
                    &&& holds(put_all(db, writes), with_next_leaf(metadata), after.records)
                },
                Err(_) => answered(world, roots, request) is None,
            }
        }),
{
    known_events_are_recorded(db, metadata, world.records, record.event_id);
    if !knows_event(db, record.event_id) && index == metadata.leaf_count {
        appending_adds_one_leaf(db, metadata, world.records, record);
    }
}

/// After a restart, the tree that is rebuilt from the state has the leaves that the
/// tree had.
pub proof fn restart_rebuilds_the_tree(
    db: Map<Seq<u8>, StoredValue>,
    metadata: MetadataView,
    world: World,
)
    requires
        holds(db, metadata, world.records),
        aligned(world),
    ensures
        rebuilt_leaves(db, metadata.leaf_count as nat) == Ok::<Seq<Seq<u8>>, StoreFault>(
            world.leaves,
        ),
{
    rebuilding_gives_back_leaves(db, metadata, world.records);
}

} // verus!
