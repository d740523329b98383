//! What ledgers did, as far as events are read from it.
use stellar_xdr::ReadXdr;
use vstd::prelude::*;
use vstd::string::*;

use crate::encoding::TreeHash;
use crate::scval::{scval_tree, scval_trees, trees, xdr_error_message, xdr_error_text, ScTree, ScValue};

verus! {

/// `stellar_xdr::ContractEvent`, an event that a contract emitted.
#[verifier::external_type_specification]
#[verifier::external_body]
pub struct ExContractEvent(stellar_xdr::ContractEvent);

/// `stellar_xdr::TransactionMeta`, what a transaction did.
#[verifier::external_type_specification]
#[verifier::external_body]
pub struct ExTransactionMeta(stellar_xdr::TransactionMeta);

/// `stellar_xdr::LedgerCloseMeta`, what a ledger did.
#[verifier::external_type_specification]
#[verifier::external_body]
pub struct ExLedgerCloseMeta(stellar_xdr::LedgerCloseMeta);

/// An event that a contract emitted, in the abstract.
pub struct EventData {
    pub contract_id: Option<Seq<u8>>,
    pub topics: Seq<ScTree>,
    pub data: ScTree,
}

/// The events of a transaction, in the abstract.
pub enum TransactionTree {
    /// Events of the transaction as a whole.
    Soroban(Seq<EventData>),
    /// Events of each operation.
    Operations(Seq<Seq<EventData>>),
    /// No contract events.
    Other,
}

/// An event that a contract emitted.
pub struct ContractEventData {
    pub contract_id: Option<TreeHash>,
    pub topics: Vec<ScValue>,
    pub data: ScValue,
}

impl View for ContractEventData {
    type V = EventData;

    open spec fn view(&self) -> EventData {
        EventData {
            contract_id: hash_view(self.contract_id),
            topics: trees(self.topics@),
            data: self.data.tree(),
        }
    }
}

/// A hash that may be there.
pub open spec fn hash_view(hash: Option<TreeHash>) -> Option<Seq<u8>> {
    match hash {
        Some(bytes) => Some(bytes@),
        None => None,
    }
}

/// Events in the abstract.
pub open spec fn event_views(list: Seq<ContractEventData>) -> Seq<EventData> {
    list.map_values(|event: ContractEventData| event@)
}

/// The events of a transaction.
pub enum TransactionEvents {
    /// Events of the transaction as a whole.
    Soroban(Vec<ContractEventData>),
    /// Events of each operation.
    Operations(Vec<Vec<ContractEventData>>),
    /// No contract events.
    Other,
}

impl View for TransactionEvents {
    type V = TransactionTree;

    open spec fn view(&self) -> TransactionTree {
        match *self {
            TransactionEvents::Soroban(events) => TransactionTree::Soroban(event_views(events@)),
            TransactionEvents::Operations(operations) => TransactionTree::Operations(
                operations@.map_values(|events: Vec<ContractEventData>| event_views(events@)),
            ),
            TransactionEvents::Other => TransactionTree::Other,
        }
    }
}

/// The transactions of a ledger.
pub struct LedgerEvents {
    pub transactions: Vec<TransactionEvents>,
}

impl View for LedgerEvents {
    type V = Seq<TransactionTree>;

    open spec fn view(&self) -> Seq<TransactionTree> {
        self.transactions@.map_values(|transaction: TransactionEvents| transaction@)
    }
}

/// What a `stellar_xdr::ContractEvent` holds.
pub uninterp spec fn contract_event_data(event: stellar_xdr::ContractEvent) -> EventData;

/// What a `stellar_xdr::TransactionMeta` holds.
pub uninterp spec fn transaction_tree(meta: stellar_xdr::TransactionMeta) -> TransactionTree;

/// What a `stellar_xdr::LedgerCloseMeta` holds.
pub uninterp spec fn ledger_trees(meta: stellar_xdr::LedgerCloseMeta) -> Seq<TransactionTree>;

/// What base64 text holds as the XDR of a ledger's metadata.
pub uninterp spec fn xdr_ledger(text: Seq<char>) -> Result<
    stellar_xdr::LedgerCloseMeta,
    stellar_xdr::Error,
>;

/// The parts of a `stellar_xdr::ContractEvent`.
pub struct ContractEventParts<'a> {
    pub contract_id: Option<TreeHash>,
    pub topics: &'a [stellar_xdr::ScVal],
    pub data: &'a stellar_xdr::ScVal,
}

impl<'a> ContractEventParts<'a> {
    /// The event that was taken apart.
    pub open spec fn event(self) -> EventData {
        EventData {
            contract_id: hash_view(self.contract_id),
            topics: scval_trees(self.topics@),
            data: scval_tree(*self.data),
        }
    }
}

/// What events of the stellar_xdr crate hold.
pub open spec fn contract_events(list: Seq<stellar_xdr::ContractEvent>) -> Seq<EventData> {
    list.map_values(|event: stellar_xdr::ContractEvent| contract_event_data(event))
}

/// The events that a `stellar_xdr::TransactionMeta` holds.
pub enum TransactionNode<'a> {
    Soroban(Option<&'a [stellar_xdr::ContractEvent]>),
    Operations(Vec<&'a [stellar_xdr::ContractEvent]>),
    Other,
}

impl<'a> TransactionNode<'a> {
    /// The metadata that were taken apart.
    pub open spec fn tree(self) -> TransactionTree {
        match self {
            TransactionNode::Soroban(None) => TransactionTree::Soroban(Seq::empty()),
            TransactionNode::Soroban(Some(events)) => TransactionTree::Soroban(
                contract_events(events@),
            ),
            TransactionNode::Operations(operations) => TransactionTree::Operations(
                operations@.map_values(|events: &[stellar_xdr::ContractEvent]| contract_events(events@)),
            ),
            TransactionNode::Other => TransactionTree::Other,
        }
    }
}

/// The fields of a `stellar_xdr::ContractEvent` and of its body.
#[verifier::external_body]
fn contract_event_parts(event: &stellar_xdr::ContractEvent) -> (parts: ContractEventParts<'_>)
    ensures
        parts.event() == contract_event_data(*event),
{
    let stellar_xdr::ContractEventBody::V0(body) = &event.body;
    ContractEventParts {
        contract_id: event.contract_id.as_ref().map(|id| id.0.0),
        topics: body.topics.as_slice(),
        data: &body.data,
    }
}

/// The contract events of a `stellar_xdr::TransactionMeta`: in version 3 those of
/// its Soroban metadata, in version 4 those of each operation; earlier versions
/// have none.
#[verifier::external_body]
fn transaction_node(meta: &stellar_xdr::TransactionMeta) -> (node: TransactionNode<'_>)
    ensures
        node.tree() == transaction_tree(*meta),
{
    match meta {
        stellar_xdr::TransactionMeta::V3(v3) => {
            TransactionNode::Soroban(v3.soroban_meta.as_ref().map(|soroban| soroban.events.as_slice()))
        },
        stellar_xdr::TransactionMeta::V4(v4) => {
            TransactionNode::Operations(v4.operations.iter().map(|operation| operation.events.as_slice()).collect())
        },
        stellar_xdr::TransactionMeta::V0(_) => TransactionNode::Other,
        stellar_xdr::TransactionMeta::V1(_) => TransactionNode::Other,
        stellar_xdr::TransactionMeta::V2(_) => TransactionNode::Other,
    }
}

/// What the transactions of a ledger hold.
pub open spec fn transaction_trees(list: Seq<&stellar_xdr::TransactionMeta>) -> Seq<
    TransactionTree,
> {
    list.map_values(|meta: &stellar_xdr::TransactionMeta| transaction_tree(*meta))
}

/// The metadata of the transactions of a `stellar_xdr::LedgerCloseMeta`, in the
/// order in which the ledger processed them.
#[verifier::external_body]
fn ledger_node(meta: &stellar_xdr::LedgerCloseMeta) -> (list: Vec<&stellar_xdr::TransactionMeta>)
    ensures
        transaction_trees(list@) == ledger_trees(*meta),
{
    match meta {
        stellar_xdr::LedgerCloseMeta::V0(v0) => v0.tx_processing.iter().map(|tx| &tx.tx_apply_processing).collect(),
        stellar_xdr::LedgerCloseMeta::V1(v1) => v1.tx_processing.iter().map(|tx| &tx.tx_apply_processing).collect(),
        stellar_xdr::LedgerCloseMeta::V2(v2) => v2.tx_processing.iter().map(|tx| &tx.tx_apply_processing).collect(),
    }
}

/// `LedgerCloseMeta::from_xdr_base64` of the stellar_xdr crate, without limits:
/// what it gives for a text is the same each time. It descends into the values of
/// the ledger, so the depth of those that it can read is bounded by the stack.
#[verifier::external_body]
fn ledger_from_xdr_base64(text: &str) -> (out: Result<stellar_xdr::LedgerCloseMeta, stellar_xdr::Error>)
    ensures
        out == xdr_ledger(text@),
{
    stellar_xdr::LedgerCloseMeta::from_xdr_base64(text, stellar_xdr::Limits::none())
}

impl ContractEventData {
    /// The contents of a `stellar_xdr::ContractEvent`.
    pub fn from_event(event: &stellar_xdr::ContractEvent) -> (out: ContractEventData)
        ensures
            out@ == contract_event_data(*event),
    {
        let parts = contract_event_parts(event);
        let mut topics: Vec<ScValue> = Vec::new();
        let mut i: usize = 0;
        while i < parts.topics.len()
            invariant
                i <= parts.topics@.len(),
                trees(topics@) == scval_trees(parts.topics@).subrange(0, i as int),
            decreases parts.topics@.len() - i,
        {
            let ghost before = trees(topics@);
            let topic = ScValue::from_scval(&parts.topics[i]);
            topics.push(topic);
            assert(trees(topics@) =~= before.push(topic.tree()));
            assert(trees(topics@) =~= scval_trees(parts.topics@).subrange(0, i + 1));
            i = i + 1;
        }
        assert(trees(topics@) =~= scval_trees(parts.topics@));
        let data = ScValue::from_scval(parts.data);
        ContractEventData { contract_id: parts.contract_id, topics, data }
    }
}

/// The contents of events of the stellar_xdr crate.
fn events_from(list: &[stellar_xdr::ContractEvent]) -> (out: Vec<ContractEventData>)
    ensures
        event_views(out@) == contract_events(list@),
{
    let mut out: Vec<ContractEventData> = Vec::new();
    let mut i: usize = 0;
    while i < list.len()
        invariant
            i <= list@.len(),
            event_views(out@) == contract_events(list@).subrange(0, i as int),
        decreases list@.len() - i,
    {
        let ghost before = event_views(out@);
        let event = ContractEventData::from_event(&list[i]);
        out.push(event);
        assert(event_views(out@) =~= before.push(event@));
        assert(event_views(out@) =~= contract_events(list@).subrange(0, i + 1));
        i = i + 1;
    }
    assert(event_views(out@) =~= contract_events(list@));
    out
}

impl TransactionEvents {
    /// The contents of a `stellar_xdr::TransactionMeta`.
    pub fn from_meta(meta: &stellar_xdr::TransactionMeta) -> (out: TransactionEvents)
        ensures
            out@ == transaction_tree(*meta),
    {
        match transaction_node(meta) {
            TransactionNode::Soroban(None) => {
                let none: Vec<ContractEventData> = Vec::new();
                assert(event_views(none@) =~= Seq::<EventData>::empty());
                TransactionEvents::Soroban(none)
            },
            TransactionNode::Soroban(Some(events)) => TransactionEvents::Soroban(events_from(events)),
            TransactionNode::Operations(operations) => {
                let ghost all = TransactionNode::Operations(operations).tree()->Operations_0;
                let mut out: Vec<Vec<ContractEventData>> = Vec::new();
                let mut i: usize = 0;
                while i < operations.len()
                    invariant
                        i <= operations@.len(),
                        all == TransactionNode::Operations(operations).tree()->Operations_0,
                        out@.len() == i,
                        forall|k: int| 0 <= k < i ==> event_views((#[trigger] out@[k])@) == all[k],
                    decreases operations@.len() - i,
                {
                    out.push(events_from(operations[i]));
                    i = i + 1;
                }
                let out = TransactionEvents::Operations(out);
                assert(out@->Operations_0 =~= all);
                out
            },
            TransactionNode::Other => TransactionEvents::Other,
        }
    }
}

/// The contents of the metadata of a ledger, or why they were not read.
pub open spec fn decoded_ledger(text: Seq<char>) -> Result<Seq<TransactionTree>, Seq<char>> {
    match xdr_ledger(text) {
        Ok(meta) => Ok(ledger_trees(meta)),
        Err(error) => Err(xdr_error_text(error)),
    }
}

/// The outcome of reading a ledger.
pub open spec fn ledger_outcome(out: Result<LedgerEvents, String>) -> Result<
    Seq<TransactionTree>,
    Seq<char>,
> {
    match out {
        Ok(ledger) => Ok(ledger@),
        Err(why) => Err(why@),
    }
}

impl LedgerEvents {
    /// The contents of a `stellar_xdr::LedgerCloseMeta`.
    pub fn from_meta(meta: &stellar_xdr::LedgerCloseMeta) -> (out: LedgerEvents)
        ensures
            out@ == ledger_trees(*meta),
    {
        let list = ledger_node(meta);
        let mut transactions: Vec<TransactionEvents> = Vec::new();
        let mut i: usize = 0;
        while i < list.len()
            invariant
                i <= list@.len(),
                transactions@.len() == i,
                forall|k: int|
                    0 <= k < i ==> (#[trigger] transactions@[k])@ == transaction_tree(*list@[k]),
            decreases list@.len() - i,
        {
            transactions.push(TransactionEvents::from_meta(list[i]));
            i = i + 1;
        }
        let out = LedgerEvents { transactions };
        assert(out@ =~= transaction_trees(list@));
        out
    }

    /// The ledger that base64 text holds in XDR.
    pub fn from_xdr_base64(text: &str) -> (out: Result<LedgerEvents, String>)
        ensures
            ledger_outcome(out) == decoded_ledger(text@),
    {
        match ledger_from_xdr_base64(text) {
            Ok(meta) => Ok(LedgerEvents::from_meta(&meta)),
            Err(error) => Err(xdr_error_message(error)),
        }
    }
}

} // verus!
