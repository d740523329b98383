//! The events that the mixer contract emits for its tree.
use vstd::prelude::*;
use vstd::string::*;

use crate::encoding::{hash_length_message, hash_length_text, TreeHash, HashTextError};
use crate::json::{json_text, Json, JsonTree};
use crate::text::NumberError;

verus! {

/// Hashes as byte sequences.
pub open spec fn hashes(list: Seq<TreeHash>) -> Seq<Seq<u8>> {
    list.map_values(|hash: TreeHash| hash@)
}

/// An event that adds leaves to the tree, in the abstract.
#[verifier::ext_equal]
pub enum TreeEvent {
    Deposit { index: u64, leaf: Seq<u8>, root: Seq<u8> },
    WithdrawChange { index: u64, leaf: Seq<u8>, root: Seq<u8> },
    Transfer { start_index: u64, output_leaves: Seq<Seq<u8>>, root: Seq<u8> },
}

/// An event that adds leaves to the tree.
#[derive(Debug)]
pub enum MixerTreeEvent {
    Deposit { index: u64, leaf: TreeHash, root: TreeHash },
    WithdrawChange { index: u64, leaf: TreeHash, root: TreeHash },
    Transfer { start_index: u64, output_leaves: Vec<TreeHash>, root: TreeHash },
}

impl View for MixerTreeEvent {
    type V = TreeEvent;

    open spec fn view(&self) -> TreeEvent {
        match *self {
            MixerTreeEvent::Deposit { index, leaf, root } => TreeEvent::Deposit {
                index,
                leaf: leaf@,
                root: root@,
            },
            MixerTreeEvent::WithdrawChange { index, leaf, root } => TreeEvent::WithdrawChange {
                index,
                leaf: leaf@,
                root: root@,
            },
            MixerTreeEvent::Transfer { start_index, output_leaves, root } => TreeEvent::Transfer {
                start_index,
                output_leaves: hashes(output_leaves@),
                root: root@,
            },
        }
    }
}

/// What a field of an event holds.
#[derive(Clone, Copy, PartialEq, Eq, Structural)]
pub enum FieldKind {
    U64,
    Hash,
    HashVec,
}

impl FieldKind {
    pub open spec fn text(self) -> Seq<char> {
        match self {
            FieldKind::U64 => "u64"@,
            FieldKind::Hash => "hash"@,
            FieldKind::HashVec => "hash vec"@,
        }
    }

    fn message(self) -> (out: &'static str)
        ensures
            out@ == self.text(),
    {
        match self {
            FieldKind::U64 => "u64",
            FieldKind::Hash => "hash",
            FieldKind::HashVec => "hash vec",
        }
    }
}

/// Why a value is not what its field asks for.
pub enum ValueError {
    /// A contract value that is no natural number of 64 bits.
    NotU64,
    /// A contract value that is no byte string.
    NotBytes,
    /// A byte string of this length in place of a hash.
    HashLength(usize),
    /// A contract value that is no list.
    NotVec,
    /// A JSON value that is no natural number of 64 bits.
    NotU64Json,
    /// A JSON string that writes no natural number of 64 bits.
    NumberText(NumberError),
    /// A JSON string that is no hash.
    HashText(HashTextError),
    /// An item of a list of bytes that is no natural number.
    ByteNotNumber,
    /// An item of a list of bytes that is over 255.
    ByteOutOfRange,
    /// A JSON value that is no hash.
    NotHashJson,
    /// A JSON object that is no list of hashes.
    NotHashVecObject,
    /// A JSON value that is no list of hashes.
    NotHashVecJson,
}

impl ValueError {
    /// The error in words.
    pub open spec fn text(self) -> Seq<char> {
        match self {
            ValueError::NotU64 => "not a u64-compatible ScVal"@,
            ValueError::NotBytes => "not a bytes ScVal"@,
            ValueError::HashLength(n) => hash_length_text(n as nat),
            ValueError::NotVec => "not a vec ScVal"@,
            ValueError::NotU64Json => "not a u64-compatible JSON value"@,
            ValueError::NumberText(error) => error.text(),
            ValueError::HashText(error) => error.text(),
            ValueError::ByteNotNumber => "hash byte is not a number"@,
            ValueError::ByteOutOfRange => "hash byte is out of range"@,
            ValueError::NotHashJson => "not a hash JSON value"@,
            ValueError::NotHashVecObject => "not a hash vec JSON object"@,
            ValueError::NotHashVecJson => "not a hash vec JSON value"@,
        }
    }

    pub fn message(&self) -> (out: String)
        ensures
            out@ == self.text(),
    {
        match self {
            ValueError::NotU64 => "not a u64-compatible ScVal".to_owned(),
            ValueError::NotBytes => "not a bytes ScVal".to_owned(),
            ValueError::HashLength(n) => hash_length_message(*n),
            ValueError::NotVec => "not a vec ScVal".to_owned(),
            ValueError::NotU64Json => "not a u64-compatible JSON value".to_owned(),
            ValueError::NumberText(error) => error.message().to_owned(),
            ValueError::HashText(error) => error.message(),
            ValueError::ByteNotNumber => "hash byte is not a number".to_owned(),
            ValueError::ByteOutOfRange => "hash byte is out of range".to_owned(),
            ValueError::NotHashJson => "not a hash JSON value".to_owned(),
            ValueError::NotHashVecObject => "not a hash vec JSON object".to_owned(),
            ValueError::NotHashVecJson => "not a hash vec JSON value".to_owned(),
        }
    }
}

/// What is wrong with a field.
pub enum FieldProblem {
    Missing,
    Invalid(ValueError),
}

/// What is wrong with a field of an event, in the abstract.
pub struct FieldFault {
    pub kind: FieldKind,
    pub names: Seq<char>,
    /// The value as it was found, where errors show it.
    pub value: Option<Seq<char>>,
    pub problem: FieldProblem,
}

impl FieldFault {
    /// The error in words.
    pub open spec fn text(self) -> Seq<char> {
        match self.problem {
            FieldProblem::Missing => "missing "@ + self.kind.text() + " field "@ + self.names,
            FieldProblem::Invalid(why) => match self.value {
                Some(value) => "invalid "@ + self.kind.text() + " field "@ + self.names + ": "@
                    + value + ": "@ + why.text(),
                None => "invalid "@ + self.kind.text() + " field "@ + self.names + ": "@
                    + why.text(),
            },
        }
    }
}

/// What is wrong with a field of an event.
pub struct FieldError {
    pub kind: FieldKind,
    /// The names that the field goes by, as a list.
    pub names: String,
    /// The value as it was found, where errors show it.
    pub value: Option<String>,
    pub problem: FieldProblem,
}

impl View for FieldError {
    type V = FieldFault;

    open spec fn view(&self) -> FieldFault {
        FieldFault {
            kind: self.kind,
            names: self.names@,
            value: match self.value {
                Some(value) => Some(value@),
                None => None,
            },
            problem: self.problem,
        }
    }
}

impl FieldError {
    pub fn message(&self) -> (out: String)
        ensures
            out@ == self@.text(),
    {
        match &self.problem {
            FieldProblem::Missing => {
                let mut out = "missing ".to_owned();
                out.append(self.kind.message());
                out.append(" field ");
                out.append(self.names.as_str());
                out
            },
            FieldProblem::Invalid(why) => {
                let mut out = "invalid ".to_owned();
                out.append(self.kind.message());
                out.append(" field ");
                out.append(self.names.as_str());
                match &self.value {
                    Some(value) => {
                        out.append(": ");
                        out.append(value.as_str());
                    },
                    None => {},
                }
                out.append(": ");
                out.append(why.message().as_str());
                out
            },
        }
    }
}

/// Names in quotes, with commas between them.
pub open spec fn quoted_names(names: Seq<&str>) -> Seq<char>
    decreases names.len(),
{
    if names.len() == 0 {
        Seq::empty()
    } else if names.len() == 1 {
        "\""@ + names[0]@ + "\""@
    } else {
        quoted_names(names.drop_last()) + ", \""@ + names.last()@ + "\""@
    }
}

/// A list of names.
pub open spec fn names_text(names: Seq<&str>) -> Seq<char> {
    "["@ + quoted_names(names) + "]"@
}

/// A list of names, as errors show it.
pub(crate) fn names_list(names: &[&str]) -> (out: String)
    ensures
        out@ == names_text(names@),
{
    let mut quoted = String::new();
    let mut i: usize = 0;
    while i < names.len()
        invariant
            i <= names@.len(),
            quoted@ == quoted_names(names@.subrange(0, i as int)),
        decreases names@.len() - i,
    {
        if i == 0 {
            quoted = "\"".to_owned();
        } else {
            quoted.append(", \"");
        }
        quoted.append(names[i]);
        quoted.append("\"");
        assert(names@.subrange(0, i + 1).drop_last() =~= names@.subrange(0, i as int));
        i = i + 1;
    }
    assert(names@.subrange(0, names@.len() as int) =~= names@);
    let mut out = "[".to_owned();
    out.append(quoted.as_str());
    out.append("]");
    out
}

/// The error of a field that no value was found for.
pub open spec fn missing(kind: FieldKind, names: Seq<&str>) -> FieldFault {
    FieldFault { kind, names: names_text(names), value: None, problem: FieldProblem::Missing }
}

/// The error of a field whose value is not what it asks for.
pub open spec fn invalid(kind: FieldKind, names: Seq<&str>, why: ValueError) -> FieldFault {
    FieldFault { kind, names: names_text(names), value: None, problem: FieldProblem::Invalid(why) }
}

/// The error of a field whose JSON value is not what it asks for.
pub open spec fn invalid_json(
    kind: FieldKind,
    names: Seq<&str>,
    value: JsonTree,
    why: ValueError,
) -> FieldFault {
    FieldFault {
        kind,
        names: names_text(names),
        value: Some(json_text(value)),
        problem: FieldProblem::Invalid(why),
    }
}

pub(crate) fn missing_error(kind: FieldKind, names: &[&str]) -> (out: FieldError)
    ensures
        out@ == missing(kind, names@),
{
    FieldError { kind, names: names_list(names), value: None, problem: FieldProblem::Missing }
}

pub(crate) fn invalid_error(kind: FieldKind, names: &[&str], why: ValueError) -> (out: FieldError)
    ensures
        out@ == invalid(kind, names@, why),
{
    FieldError { kind, names: names_list(names), value: None, problem: FieldProblem::Invalid(why) }
}

pub(crate) fn invalid_json_error(
    kind: FieldKind,
    names: &[&str],
    value: &Json,
    why: ValueError,
) -> (out: FieldError)
    ensures
        out@ == invalid_json(kind, names@, value.tree(), why),
{
    FieldError {
        kind,
        names: names_list(names),
        value: Some(value.text()),
        problem: FieldProblem::Invalid(why),
    }
}

/// The outcome of reading a number.
pub open spec fn number_outcome(out: Result<u64, FieldError>) -> Result<u64, FieldFault> {
    match out {
        Ok(n) => Ok(n),
        Err(error) => Err(error@),
    }
}

/// The outcome of reading a hash.
pub open spec fn hash_outcome(out: Result<TreeHash, FieldError>) -> Result<Seq<u8>, FieldFault> {
    match out {
        Ok(hash) => Ok(hash@),
        Err(error) => Err(error@),
    }
}

/// The outcome of reading a list of hashes.
pub open spec fn hashes_outcome(out: Result<Vec<TreeHash>, FieldError>) -> Result<
    Seq<Seq<u8>>,
    FieldFault,
> {
    match out {
        Ok(list) => Ok(hashes(list@)),
        Err(error) => Err(error@),
    }
}

/// The outcome of reading an event.
pub open spec fn event_outcome(out: Result<Option<MixerTreeEvent>, FieldError>) -> Result<
    Option<TreeEvent>,
    FieldFault,
> {
    match out {
        Ok(Some(event)) => Ok(Some(event@)),
        Ok(None) => Ok(None),
        Err(error) => Err(error@),
    }
}

/// The event that three fields make up, in the order in which they are read.
pub open spec fn deposit_of(
    index: Result<u64, FieldFault>,
    leaf: Result<Seq<u8>, FieldFault>,
    root: Result<Seq<u8>, FieldFault>,
) -> Result<Option<TreeEvent>, FieldFault> {
    match (index, leaf, root) {
        (Err(error), _, _) => Err(error),
        (_, Err(error), _) => Err(error),
        (_, _, Err(error)) => Err(error),
        (Ok(index), Ok(leaf), Ok(root)) => Ok(Some(TreeEvent::Deposit { index, leaf, root })),
    }
}

/// The change event that three fields make up, in the order in which they are read.
pub open spec fn withdraw_of(
    index: Result<u64, FieldFault>,
    leaf: Result<Seq<u8>, FieldFault>,
    root: Result<Seq<u8>, FieldFault>,
) -> Result<Option<TreeEvent>, FieldFault> {
    match (index, leaf, root) {
        (Err(error), _, _) => Err(error),
        (_, Err(error), _) => Err(error),
        (_, _, Err(error)) => Err(error),
        (Ok(index), Ok(leaf), Ok(root)) => Ok(
            Some(TreeEvent::WithdrawChange { index, leaf, root }),
        ),
    }
}

/// The transfer event that three fields make up, in the order in which they are
/// read.
pub open spec fn transfer_of(
    start_index: Result<u64, FieldFault>,
    output_leaves: Result<Seq<Seq<u8>>, FieldFault>,
    root: Result<Seq<u8>, FieldFault>,
) -> Result<Option<TreeEvent>, FieldFault> {
    match (start_index, output_leaves, root) {
        (Err(error), _, _) => Err(error),
        (_, Err(error), _) => Err(error),
        (_, _, Err(error)) => Err(error),
        (Ok(start_index), Ok(output_leaves), Ok(root)) => Ok(
            Some(TreeEvent::Transfer { start_index, output_leaves, root }),
        ),
    }
}

} // verus!
