//! Applying tree events: adding their leaves to the tree, comparing the root, and
//! recording the leaves.
//!
//! An application asks for one thing after another, of the tree and of the state,
//! and is told how each came out.
use vstd::prelude::*;
use vstd::string::*;

use crate::encoding::{hex_of_hash, hex_text, TreeHash};
use crate::events::{hashes, MixerTreeEvent, TreeEvent};
use crate::ledger_events::{LocalEvent, LocalLedgerEvent};
use crate::rpc_events::{
    parse_mixer_tree_event, reported_tree_event, ReportedEvent, RpcEvent, RpcEventError,
    RpcEventFault,
};
use crate::state_store::Lookup;
use crate::text::{decimal, decimal_text, same_bytes, same_text};

verus! {

/// The kind of event that a leaf came from.
#[derive(Debug, Clone, Copy, PartialEq, Eq, Structural)]
pub enum LeafSource {
    Deposit,
    Withdraw,
    Transfer,
}

impl LeafSource {
    pub open spec fn text(self) -> Seq<char> {
        match self {
            LeafSource::Deposit => "deposit"@,
            LeafSource::Withdraw => "withdraw"@,
            LeafSource::Transfer => "transfer"@,
        }
    }

    pub fn name(self) -> (out: &'static str)
        ensures
            out@ == self.text(),
    {
        match self {
            LeafSource::Deposit => "deposit",
            LeafSource::Withdraw => "withdraw",
            LeafSource::Transfer => "transfer",
        }
    }
}

/// Why an event was not applied, in the abstract.
pub enum ApplyFault {
    IndexMismatch { source: LeafSource, event_id: Seq<char>, next: u64, index: u64 },
    AppendMismatch { event_id: Seq<char>, expected: u64, got: u64 },
    RootMismatch { source: LeafSource, event_id: Seq<char>, local: Seq<u8>, event: Seq<u8> },
}

impl ApplyFault {
    /// The error in words.
    pub open spec fn text(self) -> Seq<char> {
        match self {
            ApplyFault::IndexMismatch { source, event_id, next, index } => source.text()
                + " index mismatch at event "@ + event_id + ": local next="@ + decimal(next as nat)
                + (if source == LeafSource::Transfer {
                ", event start_index="@
            } else {
                ", event index="@
            }) + decimal(index as nat),
            ApplyFault::AppendMismatch { event_id, expected, got } =>
                "tree append index mismatch at event "@ + event_id + ": expected "@ + decimal(
                expected as nat,
            ) + ", got "@ + decimal(got as nat),
            ApplyFault::RootMismatch { source, event_id, local, event } => source.text()
                + " root mismatch at event "@ + event_id + ": local="@ + hex_text(local)
                + ", event="@ + hex_text(event),
        }
    }
}

/// Why an event was not applied.
#[derive(Debug)]
pub enum ApplyError {
    /// The event's leaves do not follow those of the tree.
    IndexMismatch { source: LeafSource, event_id: String, next: u64, index: u64 },
    /// The tree put a leaf where it does not belong.
    AppendMismatch { event_id: String, expected: u64, got: u64 },
    /// The tree with the event's leaves has another root than the event says.
    RootMismatch { source: LeafSource, event_id: String, local: TreeHash, event: TreeHash },
}

impl View for ApplyError {
    type V = ApplyFault;

    open spec fn view(&self) -> ApplyFault {
        match *self {
            ApplyError::IndexMismatch { source, event_id, next, index } =>
                ApplyFault::IndexMismatch { source, event_id: event_id@, next, index },
            ApplyError::AppendMismatch { event_id, expected, got } => ApplyFault::AppendMismatch {
                event_id: event_id@,
                expected,
                got,
            },
            ApplyError::RootMismatch { source, event_id, local, event } =>
                ApplyFault::RootMismatch {
                source,
                event_id: event_id@,
                local: local@,
                event: event@,
            },
        }
    }
}

impl ApplyError {
    pub fn message(&self) -> (out: String)
        ensures
            out@ == self@.text(),
    {
        match self {
            ApplyError::IndexMismatch { source, event_id, next, index } => {
                let mut out = source.name().to_owned();
                out.append(" index mismatch at event ");
                out.append(event_id.as_str());
                out.append(": local next=");
                out.append(decimal_text(*next).as_str());
                if *source == LeafSource::Transfer {
                    out.append(", event start_index=");
                } else {
                    out.append(", event index=");
                }
                out.append(decimal_text(*index).as_str());
                out
            },
            ApplyError::AppendMismatch { event_id, expected, got } => {
                let mut out = "tree append index mismatch at event ".to_owned();
                out.append(event_id.as_str());
                out.append(": expected ");
                out.append(decimal_text(*expected).as_str());
                out.append(", got ");
                out.append(decimal_text(*got).as_str());
                out
            },
            ApplyError::RootMismatch { source, event_id, local, event } => {
                let mut out = source.name().to_owned();
                out.append(" root mismatch at event ");
                out.append(event_id.as_str());
                out.append(": local=");
                out.append(hex_of_hash(local).as_str());
                out.append(", event=");
                out.append(hex_of_hash(event).as_str());
                out
            },
        }
    }
}

/// What an application asks for next, in the abstract.
pub enum Request {
    /// Is this event recorded?
    IsKnown(Seq<char>),
    /// How many leaves does the tree have?
    LeafCount,
    /// Add a leaf to the tree.
    AppendLeaf(Seq<u8>),
    /// What is the root of the tree?
    Root,
    /// Record a leaf of the tree.
    Record { index: u64, leaf: Seq<u8>, event_id: Seq<char>, ledger: u64, source: LeafSource },
    /// Save the state.
    Save,
    /// Nothing: the event is dealt with.
    Done,
}

/// What an application asks for next.
#[derive(Debug)]
pub enum ApplyRequest {
    IsKnown(String),
    LeafCount,
    AppendLeaf(TreeHash),
    Root,
    Record { index: u64, leaf: TreeHash, event_id: String, ledger: u64, source: LeafSource },
    Save,
    Done,
}

impl View for ApplyRequest {
    type V = Request;

    open spec fn view(&self) -> Request {
        match *self {
            ApplyRequest::IsKnown(id) => Request::IsKnown(id@),
            ApplyRequest::LeafCount => Request::LeafCount,
            ApplyRequest::AppendLeaf(leaf) => Request::AppendLeaf(leaf@),
            ApplyRequest::Root => Request::Root,
            ApplyRequest::Record { index, leaf, event_id, ledger, source } => Request::Record {
                index,
                leaf: leaf@,
                event_id: event_id@,
                ledger,
                source,
            },
            ApplyRequest::Save => Request::Save,
            ApplyRequest::Done => Request::Done,
        }
    }
}

/// How what was asked for came out, in the abstract.
pub enum Reply {
    Known(bool),
    LeafCount(u64),
    Appended(u64),
    Root(Seq<u8>),
    Recorded,
    Saved,
}

/// How what was asked for came out.
#[derive(Debug)]
pub enum ApplyReply {
    Known(bool),
    LeafCount(u64),
    /// The index of the leaf that was added.
    Appended(u64),
    Root(TreeHash),
    Recorded,
    Saved,
}

impl View for ApplyReply {
    type V = Reply;

    open spec fn view(&self) -> Reply {
        match *self {
            ApplyReply::Known(known) => Reply::Known(known),
            ApplyReply::LeafCount(n) => Reply::LeafCount(n),
            ApplyReply::Appended(index) => Reply::Appended(index),
            ApplyReply::Root(root) => Reply::Root(root@),
            ApplyReply::Recorded => Reply::Recorded,
            ApplyReply::Saved => Reply::Saved,
        }
    }
}

/// How far an application is.
#[derive(Debug, Clone, Copy, PartialEq, Eq, Structural)]
pub enum Stage {
    Known,
    Count,
    /// Leaf `offset` is to be added.
    Append { offset: usize },
    Root,
    /// Leaf `offset` is to be recorded.
    Record { offset: usize },
    Save,
    Done,
}

/// An application in the abstract.
pub struct Application {
    pub event_id: Seq<char>,
    pub ledger: u64,
    pub source: LeafSource,
    pub start_index: u64,
    pub leaves: Seq<Seq<u8>>,
    pub root: Seq<u8>,
    pub stage: Stage,
}

impl Application {
    /// The id under which leaf `offset` is recorded.
    pub open spec fn leaf_event_id(self, offset: nat) -> Seq<char> {
        if self.source == LeafSource::Transfer {
            self.event_id + "#"@ + decimal(offset)
        } else {
            self.event_id
        }
    }

    /// The stage of adding leaf `offset`, or what comes after the last leaf.
    pub open spec fn append_stage(self, offset: nat) -> Stage {
        if offset < self.leaves.len() {
            Stage::Append { offset: offset as usize }
        } else {
            Stage::Root
        }
    }

    /// The stage of recording leaf `offset`, or what comes after the last leaf.
    pub open spec fn record_stage(self, offset: nat) -> Stage {
        if offset < self.leaves.len() {
            Stage::Record { offset: offset as usize }
        } else {
            Stage::Save
        }
    }

    /// What is asked for.
    pub open spec fn request(self) -> Request {
        match self.stage {
            Stage::Known => Request::IsKnown(self.leaf_event_id(0)),
            Stage::Count => Request::LeafCount,
            Stage::Append { offset } => Request::AppendLeaf(self.leaves[offset as int]),
            Stage::Root => Request::Root,
            Stage::Record { offset } => Request::Record {
                index: (self.start_index + offset) as u64,
                leaf: self.leaves[offset as int],
                event_id: self.leaf_event_id(offset as nat),
                ledger: self.ledger,
                source: self.source,
            },
            Stage::Save => Request::Save,
            Stage::Done => Request::Done,
        }
    }

    /// The reply is one to what is asked for. A tree whose leaves the event's
    /// leaves follow has room for their indices.
    pub open spec fn expects(self, reply: Reply) -> bool {
        match (self.stage, reply) {
            (Stage::Known, Reply::Known(_)) => true,
            (Stage::Count, Reply::LeafCount(n)) => n == self.start_index ==> n + self.leaves.len()
                <= u64::MAX,
            (Stage::Append { .. }, Reply::Appended(_)) => true,
            (Stage::Root, Reply::Root(_)) => true,
            (Stage::Record { .. }, Reply::Recorded) => true,
            (Stage::Save, Reply::Saved) => true,
            _ => false,
        }
    }

    /// What the application goes on with.
    pub open spec fn resumed(self, reply: Reply) -> Result<Application, ApplyFault> {
        match (self.stage, reply) {
            (Stage::Known, Reply::Known(known)) => if known {
                Ok(Application { stage: Stage::Done, ..self })
            } else {
                Ok(Application { stage: Stage::Count, ..self })
            },
            (Stage::Count, Reply::LeafCount(n)) => if n != self.start_index {
                Err(
                    ApplyFault::IndexMismatch {
                        source: self.source,
                        event_id: self.event_id,
                        next: n,
                        index: self.start_index,
                    },
                )
            } else {
                Ok(Application { stage: self.append_stage(0), ..self })
            },
            (Stage::Append { offset }, Reply::Appended(got)) => if got != self.start_index
                + offset {
                Err(
                    ApplyFault::AppendMismatch {
                        event_id: self.event_id,
                        expected: (self.start_index + offset) as u64,
                        got,
                    },
                )
            } else {
                Ok(Application { stage: self.append_stage(offset as nat + 1), ..self })
            },
            (Stage::Root, Reply::Root(local)) => if local != self.root {
                Err(
                    ApplyFault::RootMismatch {
                        source: self.source,
                        event_id: self.event_id,
                        local,
                        event: self.root,
                    },
                )
            } else {
                Ok(Application { stage: self.record_stage(0), ..self })
            },
            (Stage::Record { offset }, Reply::Recorded) => Ok(
                Application { stage: self.record_stage(offset as nat + 1), ..self },
            ),
            (Stage::Save, Reply::Saved) => Ok(Application { stage: Stage::Done, ..self }),
            _ => Ok(self),
        }
    }

    /// The leaf that the stage speaks of is one of the event's, and the leaves'
    /// indices fit 64 bits once the tree was counted.
    pub open spec fn wf(self) -> bool {
        match self.stage {
            Stage::Known => self.source == LeafSource::Transfer,
            Stage::Count => true,
            Stage::Append { offset } => offset < self.leaves.len() && self.start_index
                + self.leaves.len() <= u64::MAX,
            Stage::Root => self.start_index + self.leaves.len() <= u64::MAX,
            Stage::Record { offset } => offset < self.leaves.len() && self.start_index
                + self.leaves.len() <= u64::MAX,
            Stage::Save => true,
            Stage::Done => true,
        }
    }
}

/// The application of an event, at its start.
pub open spec fn application(event_id: Seq<char>, ledger: u64, event: TreeEvent) -> Application {
    match event {
        TreeEvent::Deposit { index, leaf, root } => Application {
            event_id,
            ledger,
            source: LeafSource::Deposit,
            start_index: index,
            leaves: seq![leaf],
            root,
            stage: Stage::Count,
        },
        TreeEvent::WithdrawChange { index, leaf, root } => Application {
            event_id,
            ledger,
            source: LeafSource::Withdraw,
            start_index: index,
            leaves: seq![leaf],
            root,
            stage: Stage::Count,
        },
        TreeEvent::Transfer { start_index, output_leaves, root } => Application {
            event_id,
            ledger,
            source: LeafSource::Transfer,
            start_index,
            leaves: output_leaves,
            root,
            stage: Stage::Known,
        },
    }
}

/// The application of a tree event.
#[derive(Debug)]
pub struct EventApplication {
    event_id: String,
    ledger: u64,
    source: LeafSource,
    start_index: u64,
    leaves: Vec<TreeHash>,
    root: TreeHash,
    stage: Stage,
}

impl View for EventApplication {
    type V = Application;

    closed spec fn view(&self) -> Application {
        Application {
            event_id: self.event_id@,
            ledger: self.ledger,
            source: self.source,
            start_index: self.start_index,
            leaves: hashes(self.leaves@),
            root: self.root@,
            stage: self.stage,
        }
    }
}

/// The outcome of going on.
pub open spec fn resume_outcome(after: Application, out: Result<(), ApplyError>) -> Result<
    Application,
    ApplyFault,
> {
    match out {
        Ok(()) => Ok(after),
        Err(error) => Err(error@),
    }
}

impl EventApplication {
    #[verifier::type_invariant]
    spec fn inv(self) -> bool {
        self@.wf()
    }

    /// Starts to apply an event.
    pub fn apply_parsed_tree_event(
        event_id: &str,
        event_ledger: u64,
        parsed: MixerTreeEvent,
    ) -> (out: EventApplication)
        ensures
            out@ == application(event_id@, event_ledger, parsed@),
    {
        match parsed {
            MixerTreeEvent::Deposit { index, leaf, root } => Self::apply_one_leaf(
                index,
                leaf,
                root,
                event_id,
                event_ledger,
                LeafSource::Deposit,
            ),
            MixerTreeEvent::WithdrawChange { index, leaf, root } => Self::apply_one_leaf(
                index,
                leaf,
                root,
                event_id,
                event_ledger,
                LeafSource::Withdraw,
            ),
            MixerTreeEvent::Transfer { start_index, output_leaves, root } => EventApplication {
                event_id: event_id.to_owned(),
                ledger: event_ledger,
                source: LeafSource::Transfer,
                start_index,
                leaves: output_leaves,
                root,
                stage: Stage::Known,
            },
        }
    }

    /// Starts to apply an event of one leaf.
    fn apply_one_leaf(
        index: u64,
        leaf: TreeHash,
        root: TreeHash,
        event_id: &str,
        event_ledger: u64,
        source: LeafSource,
    ) -> (out: EventApplication)
        ensures
            out@ == (Application {
                event_id: event_id@,
                ledger: event_ledger,
                source,
                start_index: index,
                leaves: seq![leaf@],
                root: root@,
                stage: Stage::Count,
            }),
    {
        let mut leaves: Vec<TreeHash> = Vec::new();
        leaves.push(leaf);
        assert(hashes(leaves@) =~= seq![leaf@]);
        EventApplication {
            event_id: event_id.to_owned(),
            ledger: event_ledger,
            source,
            start_index: index,
            leaves,
            root,
            stage: Stage::Count,
        }
    }

    /// The id under which leaf `offset` is recorded.
    fn leaf_event_id(&self, offset: usize) -> (out: String)
        ensures
            out@ == self@.leaf_event_id(offset as nat),
    {
        let mut out = self.event_id.as_str().to_owned();
        if self.source == LeafSource::Transfer {
            out.append("#");
            out.append(decimal_text(offset as u64).as_str());
        }
        out
    }

    /// What is asked for.
    pub fn request(&self) -> (out: ApplyRequest)
        ensures
            out@ == self@.request(),
    {
        proof {
            use_type_invariant(self);
        }
        match self.stage {
            Stage::Known => ApplyRequest::IsKnown(self.leaf_event_id(0)),
            Stage::Count => ApplyRequest::LeafCount,
            Stage::Append { offset } => ApplyRequest::AppendLeaf(self.leaves[offset]),
            Stage::Root => ApplyRequest::Root,
            Stage::Record { offset } => ApplyRequest::Record {
                index: self.start_index + offset as u64,
                leaf: self.leaves[offset],
                event_id: self.leaf_event_id(offset),
                ledger: self.ledger,
                source: self.source,
            },
            Stage::Save => ApplyRequest::Save,
            Stage::Done => ApplyRequest::Done,
        }
    }

    /// Whether a tree of `leaf_count` leaves has room for the indices of the event's
    /// leaves, where they follow.
    pub fn has_room(&self, leaf_count: u64) -> (room: bool)
        ensures
            room == (leaf_count == self@.start_index ==> leaf_count + self@.leaves.len()
                <= u64::MAX),
    {
        leaf_count != self.start_index || self.leaves.len() as u64 <= u64::MAX - leaf_count
    }

    /// Goes on with the reply to what was asked for. Where the event is refused,
    /// the application stays where it is.
    pub fn resume(&mut self, reply: ApplyReply) -> (out: Result<(), ApplyError>)
        requires
            old(self)@.expects(reply@),
        ensures
            resume_outcome(final(self)@, out) == old(self)@.resumed(reply@),
            out is Err ==> final(self)@ == old(self)@,
    {
        proof {
            use_type_invariant(&*self);
        }
        let n: usize = self.leaves.len();
        match (self.stage, reply) {
            (Stage::Known, ApplyReply::Known(known)) => {
                if known {
                    self.stage = Stage::Done;
                } else {
                    self.stage = Stage::Count;
                }
                Ok(())
            },
            (Stage::Count, ApplyReply::LeafCount(next)) => {
                if next != self.start_index {
                    return Err(
                        ApplyError::IndexMismatch {
                            source: self.source,
                            event_id: self.event_id.as_str().to_owned(),
                            next,
                            index: self.start_index,
                        },
                    );
                }
                self.stage = if n > 0 {
                    Stage::Append { offset: 0 }
                } else {
                    Stage::Root
                };
                Ok(())
            },
            (Stage::Append { offset }, ApplyReply::Appended(got)) => {
                let expected = self.start_index + offset as u64;
                if got != expected {
                    return Err(
                        ApplyError::AppendMismatch {
                            event_id: self.event_id.as_str().to_owned(),
                            expected,
                            got,
                        },
                    );
                }
                self.stage = if offset + 1 < n {
                    Stage::Append { offset: offset + 1 }
                } else {
                    Stage::Root
                };
                Ok(())
            },
            (Stage::Root, ApplyReply::Root(local)) => {
                if !same_bytes(local.as_slice(), self.root.as_slice()) {
                    return Err(
                        ApplyError::RootMismatch {
                            source: self.source,
                            event_id: self.event_id.as_str().to_owned(),
                            local,
                            event: self.root,
                        },
                    );
                }
                self.stage = if n > 0 {
                    Stage::Record { offset: 0 }
                } else {
                    Stage::Save
                };
                Ok(())
            },
            (Stage::Record { offset }, ApplyReply::Recorded) => {
                self.stage = if offset + 1 < n {
                    Stage::Record { offset: offset + 1 }
                } else {
                    Stage::Save
                };
                Ok(())
            },
            (Stage::Save, ApplyReply::Saved) => {
                self.stage = Stage::Done;
                Ok(())
            },
            _ => Ok(()),
        }
    }
}

/// What is to be done about a reported event: nothing where it is another
/// contract's, where it is recorded, or where it is no tree event.
pub open spec fn reported_application(
    event: ReportedEvent,
    mixer_contract_id: Seq<char>,
    known: bool,
) -> Result<Option<Application>, RpcEventFault> {
    if event.contract_id != mixer_contract_id || known {
        Ok(None)
    } else {
        match reported_tree_event(event) {
            Ok(Some(parsed)) => Ok(Some(application(event.id, event.ledger as u64, parsed))),
            Ok(None) => Ok(None),
            Err(error) => Err(error),
        }
    }
}

/// The outcome of starting to apply a reported event.
pub open spec fn application_outcome(
    out: Result<Option<EventApplication>, RpcEventError>,
) -> Result<Option<Application>, RpcEventFault> {
    match out {
        Ok(Some(started)) => Ok(Some(started@)),
        Ok(None) => Ok(None),
        Err(error) => Err(error@),
    }
}

/// Starts to apply an event that the RPC service reported, given what the database
/// said of its id.
pub fn apply_rpc_event(event: &RpcEvent, mixer_contract_id: &str, reply: Lookup) -> (out: Result<
    Option<EventApplication>,
    RpcEventError,
>)
    ensures
        application_outcome(out) == reported_application(
            event@,
            mixer_contract_id@,
            reply is Found,
        ),
{
    if !same_text(event.contract_id.as_str(), mixer_contract_id) {
        return Ok(None);
    }
    if reply == Lookup::Found {
        return Ok(None);
    }
    match parse_mixer_tree_event(event)? {
        Some(parsed) => Ok(
            Some(
                EventApplication::apply_parsed_tree_event(
                    event.id.as_str(),
                    event.ledger as u64,
                    parsed,
                ),
            ),
        ),
        None => Ok(None),
    }
}

/// What is to be done about an event found in a ledger: nothing where it is
/// recorded.
pub open spec fn local_application(event: LocalEvent, known: bool) -> Option<Application> {
    if known {
        None
    } else {
        Some(application(event.id, event.ledger as u64, event.event))
    }
}

/// Starts to apply an event that was found in a ledger, given what the database
/// said of its id.
pub fn apply_local_ledger_event(event: LocalLedgerEvent, reply: Lookup) -> (out: Option<
    EventApplication,
>)
    ensures
        match out {
            Some(started) => local_application(event@, reply is Found) == Some(started@),
            None => local_application(event@, reply is Found) is None,
        },
{
    if reply == Lookup::Found {
        return None;
    }
    Some(
        EventApplication::apply_parsed_tree_event(
            event.id.as_str(),
            event.ledger as u64,
            event.parsed,
        ),
    )
}

} // verus!
