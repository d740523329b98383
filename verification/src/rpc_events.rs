//! Events of the mixer contract as the RPC service reports them.
use vstd::prelude::*;
use vstd::string::*;

use crate::events::{FieldError, FieldFault, MixerTreeEvent, TreeEvent};
use crate::json_events::{
    collect_symbols, json_event, parse_mixer_tree_event_from_xdr_json, symbols_of, texts,
};
use crate::scval::{decoded_json, scval_json_from_base64, DecodeError, DecodeFault};

verus! {

/// An event as the RPC service reports it, in the abstract.
pub struct ReportedEvent {
    pub id: Seq<char>,
    pub contract_id: Seq<char>,
    pub ledger: u32,
    pub topic: Seq<Seq<char>>,
    pub value: Seq<char>,
}

/// An event as the RPC service reports it.
#[derive(Debug)]
pub struct RpcEvent {
    pub id: String,
    pub contract_id: String,
    pub ledger: u32,
    /// The topics, each the base64 XDR of a contract value.
    pub topic: Vec<String>,
    /// The base64 XDR of a contract value.
    pub value: String,
}

impl View for RpcEvent {
    type V = ReportedEvent;

    open spec fn view(&self) -> ReportedEvent {
        ReportedEvent {
            id: self.id@,
            contract_id: self.contract_id@,
            ledger: self.ledger,
            topic: texts(self.topic@),
            value: self.value@,
        }
    }
}

/// Why an event was not read, in the abstract.
pub enum RpcEventFault {
    Topic(DecodeFault),
    Value { id: Seq<char>, why: DecodeFault },
    Field(FieldFault),
}

impl RpcEventFault {
    /// The error in words.
    pub open spec fn text(self) -> Seq<char> {
        match self {
            RpcEventFault::Topic(why) => "failed to decode event topic XDR: "@ + why.text(),
            RpcEventFault::Value { id, why } => "failed to decode event value XDR for "@ + id
                + ": "@ + why.text(),
            RpcEventFault::Field(why) => why.text(),
        }
    }
}

/// Why an event was not read.
pub enum RpcEventError {
    /// A topic was not decoded.
    Topic(DecodeError),
    /// The value of the event of this id was not decoded.
    Value { id: String, why: DecodeError },
    /// A field of the value is missing or wrong.
    Field(FieldError),
}

impl View for RpcEventError {
    type V = RpcEventFault;

    open spec fn view(&self) -> RpcEventFault {
        match *self {
            RpcEventError::Topic(why) => RpcEventFault::Topic(why@),
            RpcEventError::Value { id, why } => RpcEventFault::Value { id: id@, why: why@ },
            RpcEventError::Field(why) => RpcEventFault::Field(why@),
        }
    }
}

impl RpcEventError {
    pub fn message(&self) -> (out: String)
        ensures
            out@ == self@.text(),
    {
        match self {
            RpcEventError::Topic(why) => {
                let mut out = "failed to decode event topic XDR: ".to_owned();
                out.append(why.message().as_str());
                out
            },
            RpcEventError::Value { id, why } => {
                let mut out = "failed to decode event value XDR for ".to_owned();
                out.append(id.as_str());
                out.append(": ");
                out.append(why.message().as_str());
                out
            },
            RpcEventError::Field(why) => why.message(),
        }
    }
}

/// The symbols in topics, in order; the error is that of the first topic that is
/// not decoded.
pub open spec fn topics_symbols(topics: Seq<Seq<char>>) -> Result<Seq<Seq<char>>, RpcEventFault>
    decreases topics.len(),
{
    if topics.len() == 0 {
        Ok(Seq::empty())
    } else {
        match topics_symbols(topics.drop_last()) {
            Ok(front) => match decoded_json(topics.last()) {
                Ok(tree) => Ok(front + symbols_of(tree)),
                Err(why) => Err(RpcEventFault::Topic(why)),
            },
            Err(error) => Err(error),
        }
    }
}

/// The tree event that a reported event stands for.
pub open spec fn reported_tree_event(event: ReportedEvent) -> Result<
    Option<TreeEvent>,
    RpcEventFault,
> {
    match topics_symbols(event.topic) {
        Ok(symbols) => match decoded_json(event.value) {
            Ok(tree) => match json_event(symbols, tree) {
                Ok(parsed) => Ok(parsed),
                Err(why) => Err(RpcEventFault::Field(why)),
            },
            Err(why) => Err(RpcEventFault::Value { id: event.id, why }),
        },
        Err(error) => Err(error),
    }
}

/// The outcome of reading topics.
pub open spec fn symbols_outcome(out: Result<Vec<String>, RpcEventError>) -> Result<
    Seq<Seq<char>>,
    RpcEventFault,
> {
    match out {
        Ok(list) => Ok(texts(list@)),
        Err(error) => Err(error@),
    }
}

/// The outcome of reading a reported event.
pub open spec fn reported_outcome(out: Result<Option<MixerTreeEvent>, RpcEventError>) -> Result<
    Option<TreeEvent>,
    RpcEventFault,
> {
    match out {
        Ok(Some(event)) => Ok(Some(event@)),
        Ok(None) => Ok(None),
        Err(error) => Err(error@),
    }
}

/// Topics fail as their first failing front does.
proof fn lemma_topics_fail(topics: Seq<Seq<char>>, i: int)
    requires
        0 <= i <= topics.len(),
        topics_symbols(topics.subrange(0, i)) is Err,
    ensures
        topics_symbols(topics) == topics_symbols(topics.subrange(0, i)),
    decreases topics.len(),
{
    if i == topics.len() {
        assert(topics.subrange(0, i) =~= topics);
    } else {
        assert(topics.drop_last().subrange(0, i) =~= topics.subrange(0, i));
        lemma_topics_fail(topics.drop_last(), i);
    }
}

/// The symbols in topics.
pub fn topic_symbols(topics: &[String]) -> (out: Result<Vec<String>, RpcEventError>)
    ensures
        symbols_outcome(out) == topics_symbols(texts(topics@)),
{
    let ghost all = texts(topics@);
    let mut out: Vec<String> = Vec::new();
    let mut i: usize = 0;
    assert(texts(out@) =~= Seq::<Seq<char>>::empty());
    while i < topics.len()
        invariant
            all == texts(topics@),
            i <= topics@.len(),
            topics_symbols(all.subrange(0, i as int)) == Ok::<Seq<Seq<char>>, RpcEventFault>(
                texts(out@),
            ),
        decreases topics@.len() - i,
    {
        let ghost next = all.subrange(0, i + 1);
        assert(next.drop_last() =~= all.subrange(0, i as int));
        assert(next.last() == topics@[i as int]@);
        match scval_json_from_base64(topics[i].as_str()) {
            Ok(value) => {
                collect_symbols(&value, &mut out);
            },
            Err(why) => {
                proof {
                    lemma_topics_fail(all, i + 1);
                }
                return Err(RpcEventError::Topic(why));
            },
        }
        i = i + 1;
    }
    assert(all.subrange(0, all.len() as int) =~= all);
    Ok(out)
}

/// The tree event that a reported event stands for.
pub fn parse_mixer_tree_event(event: &RpcEvent) -> (out: Result<
    Option<MixerTreeEvent>,
    RpcEventError,
>)
    ensures
        reported_outcome(out) == reported_tree_event(event@),
{
    let symbols = topic_symbols(event.topic.as_slice())?;
    match scval_json_from_base64(event.value.as_str()) {
        Ok(value) => match parse_mixer_tree_event_from_xdr_json(symbols.as_slice(), &value) {
            Ok(parsed) => Ok(parsed),
            Err(why) => Err(RpcEventError::Field(why)),
        },
        Err(why) => Err(RpcEventError::Value { id: event.id.as_str().to_owned(), why }),
    }
}

} // verus!
