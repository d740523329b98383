//! Contract values, as far as events are read from them.
use stellar_xdr::{ReadXdr, ScVal};
use vstd::prelude::*;
use vstd::slice::slice_to_vec;
use vstd::string::*;

use crate::json::{value_tree, Json, JsonTree};

verus! {

/// `stellar_xdr::ScVal`, a contract value.
#[verifier::external_type_specification]
#[verifier::external_body]
pub struct ExScVal(stellar_xdr::ScVal);

/// `stellar_xdr::Error`, why XDR was not read.
#[verifier::external_type_specification]
#[verifier::external_body]
pub struct ExXdrError(stellar_xdr::Error);

/// `serde_json::Error`, why a value was not written as JSON.
#[verifier::external_type_specification]
#[verifier::external_body]
pub struct ExJsonError(serde_json::Error);

/// A contract value in the abstract.
pub enum ScTree {
    U64(u64),
    U32(u32),
    I64(i64),
    I32(i32),
    Bytes(Seq<u8>),
    Text(Seq<u8>),
    Symbol(Seq<u8>),
    List(Option<Seq<ScTree>>),
    Entries(Option<Seq<(ScTree, ScTree)>>),
    Other,
}

/// A contract value.
pub enum ScValue {
    U64(u64),
    U32(u32),
    I64(i64),
    I32(i32),
    Bytes(Vec<u8>),
    Text(Vec<u8>),
    Symbol(Vec<u8>),
    List(Option<Vec<ScValue>>),
    Entries(Option<Vec<(ScValue, ScValue)>>),
    /// A value of any other kind.
    Other,
}

impl ScValue {
    /// The value in the abstract.
    pub open spec fn tree(self) -> ScTree
        decreases self,
    {
        match self {
            ScValue::U64(n) => ScTree::U64(n),
            ScValue::U32(n) => ScTree::U32(n),
            ScValue::I64(n) => ScTree::I64(n),
            ScValue::I32(n) => ScTree::I32(n),
            ScValue::Bytes(bytes) => ScTree::Bytes(bytes@),
            ScValue::Text(bytes) => ScTree::Text(bytes@),
            ScValue::Symbol(bytes) => ScTree::Symbol(bytes@),
            ScValue::List(None) => ScTree::List(None),
            ScValue::List(Some(items)) => ScTree::List(
                Some(
                    Seq::new(
                        items@.len(),
                        |i: int|
                            if 0 <= i < items@.len() {
                                items@[i].tree()
                            } else {
                                ScTree::Other
                            },
                    ),
                ),
            ),
            ScValue::Entries(None) => ScTree::Entries(None),
            ScValue::Entries(Some(entries)) => ScTree::Entries(
                Some(
                    Seq::new(
                        entries@.len(),
                        |i: int|
                            if 0 <= i < entries@.len() {
                                (entries@[i].0.tree(), entries@[i].1.tree())
                            } else {
                                (ScTree::Other, ScTree::Other)
                            },
                    ),
                ),
            ),
            ScValue::Other => ScTree::Other,
        }
    }
}

/// Contract values in the abstract.
pub open spec fn trees(list: Seq<ScValue>) -> Seq<ScTree> {
    list.map_values(|value: ScValue| value.tree())
}

/// What a `stellar_xdr::ScVal` holds.
pub uninterp spec fn scval_tree(value: stellar_xdr::ScVal) -> ScTree;

/// A `stellar_xdr::ScVal` taken apart by one layer.
pub enum ScNode<'a> {
    U64(u64),
    U32(u32),
    I64(i64),
    I32(i32),
    Bytes(&'a [u8]),
    Text(&'a [u8]),
    Symbol(&'a [u8]),
    List(Option<&'a [stellar_xdr::ScVal]>),
    Entries(Option<Vec<(&'a stellar_xdr::ScVal, &'a stellar_xdr::ScVal)>>),
    Other,
}

impl<'a> ScNode<'a> {
    /// The value that was taken apart.
    pub open spec fn tree(self) -> ScTree {
        match self {
            ScNode::U64(n) => ScTree::U64(n),
            ScNode::U32(n) => ScTree::U32(n),
            ScNode::I64(n) => ScTree::I64(n),
            ScNode::I32(n) => ScTree::I32(n),
            ScNode::Bytes(bytes) => ScTree::Bytes(bytes@),
            ScNode::Text(bytes) => ScTree::Text(bytes@),
            ScNode::Symbol(bytes) => ScTree::Symbol(bytes@),
            ScNode::List(None) => ScTree::List(None),
            ScNode::List(Some(items)) => ScTree::List(Some(scval_trees(items@))),
            ScNode::Entries(None) => ScTree::Entries(None),
            ScNode::Entries(Some(entries)) => ScTree::Entries(
                Some(
                    entries@.map_values(
                        |entry: (&stellar_xdr::ScVal, &stellar_xdr::ScVal)|
                            (scval_tree(*entry.0), scval_tree(*entry.1)),
                    ),
                ),
            ),
            ScNode::Other => ScTree::Other,
        }
    }
}

/// What values of the stellar_xdr crate hold.
pub open spec fn scval_trees(list: Seq<stellar_xdr::ScVal>) -> Seq<ScTree> {
    list.map_values(|value: stellar_xdr::ScVal| scval_tree(value))
}

/// The variants of `stellar_xdr::ScVal` with their contents. Those that hold no
/// number of up to 64 bits, no bytes, text or symbol, no list and no map are not
/// told apart.
#[verifier::external_body]
fn scval_node(value: &stellar_xdr::ScVal) -> (node: ScNode<'_>)
    ensures
        node.tree() == scval_tree(*value),
{
    match value {
        ScVal::U64(n) => ScNode::U64(*n),
        ScVal::U32(n) => ScNode::U32(*n),
        ScVal::I64(n) => ScNode::I64(*n),
        ScVal::I32(n) => ScNode::I32(*n),
        ScVal::Bytes(bytes) => ScNode::Bytes(bytes),
        ScVal::String(text) => ScNode::Text(text),
        ScVal::Symbol(text) => ScNode::Symbol(text),
        ScVal::Vec(items) => ScNode::List(items.as_ref().map(|list| list.as_slice())),
        ScVal::Map(map) => {
            ScNode::Entries(map.as_ref().map(|list| list.iter().map(|e| (&e.key, &e.val)).collect()))
        },
        _ => ScNode::Other,
    }
}

impl ScValue {
    /// The contents of a `stellar_xdr::ScVal`.
    pub fn from_scval(value: &stellar_xdr::ScVal) -> (out: ScValue)
        ensures
            out.tree() == scval_tree(*value),
        decreases scval_tree(*value),
    {
        let ghost tree = scval_tree(*value);
        match scval_node(value) {
            ScNode::U64(n) => ScValue::U64(n),
            ScNode::U32(n) => ScValue::U32(n),
            ScNode::I64(n) => ScValue::I64(n),
            ScNode::I32(n) => ScValue::I32(n),
            ScNode::Bytes(bytes) => ScValue::Bytes(slice_to_vec(bytes)),
            ScNode::Text(bytes) => ScValue::Text(slice_to_vec(bytes)),
            ScNode::Symbol(bytes) => ScValue::Symbol(slice_to_vec(bytes)),
            ScNode::List(None) => ScValue::List(None),
            ScNode::List(Some(items)) => {
                let mut out: Vec<ScValue> = Vec::new();
                let mut i: usize = 0;
                while i < items.len()
                    invariant
                        i <= items@.len(),
                        out@.len() == i,
                        tree == scval_tree(*value),
                        tree == ScNode::List(Some(items)).tree(),
                        forall|k: int|
                            0 <= k < i ==> out@[k].tree() == scval_tree(#[trigger] items@[k]),
                    decreases items@.len() - i,
                {
                    assert(tree->List_0->0[i as int] == scval_tree(items@[i as int]));
                    out.push(ScValue::from_scval(&items[i]));
                    i = i + 1;
                }
                assert(ScValue::List(Some(out)).tree()->List_0->0 =~= tree->List_0->0);
                ScValue::List(Some(out))
            },
            ScNode::Entries(None) => ScValue::Entries(None),
            ScNode::Entries(Some(entries)) => {
                let mut out: Vec<(ScValue, ScValue)> = Vec::new();
                let mut i: usize = 0;
                while i < entries.len()
                    invariant
                        i <= entries@.len(),
                        out@.len() == i,
                        tree == scval_tree(*value),
                        tree == ScNode::Entries(Some(entries)).tree(),
                        forall|k: int|
                            0 <= k < i ==> {
                                &&& (#[trigger] out@[k]).0.tree() == scval_tree(*entries@[k].0)
                                &&& out@[k].1.tree() == scval_tree(*entries@[k].1)
                            },
                    decreases entries@.len() - i,
                {
                    assert(tree->Entries_0->0[i as int].0 == scval_tree(*entries@[i as int].0));
                    assert(tree->Entries_0->0[i as int].1 == scval_tree(*entries@[i as int].1));
                    let key = ScValue::from_scval(entries[i].0);
                    let val = ScValue::from_scval(entries[i].1);
                    out.push((key, val));
                    i = i + 1;
                }
                assert(ScValue::Entries(Some(out)).tree()->Entries_0->0 =~= tree->Entries_0->0);
                ScValue::Entries(Some(out))
            },
            ScNode::Other => ScValue::Other,
        }
    }
}

/// What base64 text holds as the XDR of a contract value.
pub uninterp spec fn xdr_scval(text: Seq<char>) -> Result<stellar_xdr::ScVal, stellar_xdr::Error>;

/// A contract value in the JSON form of XDR.
pub uninterp spec fn scval_json(value: stellar_xdr::ScVal) -> Result<
    serde_json::Value,
    serde_json::Error,
>;

/// An error of the stellar_xdr crate in words, with its causes.
pub uninterp spec fn xdr_error_text(error: stellar_xdr::Error) -> Seq<char>;

/// An error of the serde_json crate in words, with its causes.
pub uninterp spec fn json_error_text(error: serde_json::Error) -> Seq<char>;

/// `ScVal::from_xdr_base64` of the stellar_xdr crate, without limits: what it
/// gives for a text is the same each time. It descends into the value, so the
/// depth of one that it can read is bounded by the stack.
#[verifier::external_body]
fn scval_from_xdr_base64(text: &str) -> (out: Result<stellar_xdr::ScVal, stellar_xdr::Error>)
    ensures
        out == xdr_scval(text@),
{
    stellar_xdr::ScVal::from_xdr_base64(text, stellar_xdr::Limits::none())
}

/// `serde_json::to_value` on a contract value: what it gives for a value is the
/// same each time.
#[verifier::external_body]
fn scval_to_json(value: stellar_xdr::ScVal) -> (out: Result<serde_json::Value, serde_json::Error>)
    ensures
        out == scval_json(value),
{
    serde_json::to_value(value)
}

/// An error of the stellar_xdr crate as `anyhow::Error` writes it in its alternate
/// form: the error and its causes. What it writes for an error is the same each
/// time.
#[verifier::external_body]
pub(crate) fn xdr_error_message(error: stellar_xdr::Error) -> (out: String)
    ensures
        out@ == xdr_error_text(error),
{
    format!("{:#}", anyhow::Error::new(error))
}

/// An error of the serde_json crate as `anyhow::Error` writes it in its alternate
/// form: the error and its causes. What it writes for an error is the same each
/// time.
#[verifier::external_body]
fn json_error_message(error: serde_json::Error) -> (out: String)
    ensures
        out@ == json_error_text(error),
{
    format!("{:#}", anyhow::Error::new(error))
}

/// Why a text gave no JSON, in the abstract.
pub enum DecodeFault {
    Xdr(Seq<char>),
    Json(Seq<char>),
}

impl DecodeFault {
    /// The error in words.
    pub open spec fn text(self) -> Seq<char> {
        match self {
            DecodeFault::Xdr(why) => "failed to decode Stellar ScVal base64 XDR: "@ + why,
            DecodeFault::Json(why) => "failed to convert Stellar ScVal to XDR-JSON: "@ + why,
        }
    }
}

/// Why a text gave no JSON.
pub enum DecodeError {
    /// It is not the XDR of a contract value.
    Xdr(String),
    /// The value has no JSON form.
    Json(String),
}

impl View for DecodeError {
    type V = DecodeFault;

    open spec fn view(&self) -> DecodeFault {
        match *self {
            DecodeError::Xdr(why) => DecodeFault::Xdr(why@),
            DecodeError::Json(why) => DecodeFault::Json(why@),
        }
    }
}

impl DecodeError {
    pub fn message(&self) -> (out: String)
        ensures
            out@ == self@.text(),
    {
        match self {
            DecodeError::Xdr(why) => {
                let mut out = "failed to decode Stellar ScVal base64 XDR: ".to_owned();
                out.append(why.as_str());
                out
            },
            DecodeError::Json(why) => {
                let mut out = "failed to convert Stellar ScVal to XDR-JSON: ".to_owned();
                out.append(why.as_str());
                out
            },
        }
    }
}

/// The JSON that the XDR of a contract value stands for.
pub open spec fn decoded_json(text: Seq<char>) -> Result<JsonTree, DecodeFault> {
    match xdr_scval(text) {
        Ok(value) => match scval_json(value) {
            Ok(json) => Ok(value_tree(json)),
            Err(error) => Err(DecodeFault::Json(json_error_text(error))),
        },
        Err(error) => Err(DecodeFault::Xdr(xdr_error_text(error))),
    }
}

/// The outcome of decoding a text.
pub open spec fn json_outcome(out: Result<Json, DecodeError>) -> Result<JsonTree, DecodeFault> {
    match out {
        Ok(json) => Ok(json.tree()),
        Err(error) => Err(error@),
    }
}

/// The JSON that the XDR of a contract value stands for.
pub fn scval_json_from_base64(value: &str) -> (out: Result<Json, DecodeError>)
    ensures
        json_outcome(out) == decoded_json(value@),
{
    match scval_from_xdr_base64(value) {
        Ok(scval) => match scval_to_json(scval) {
            Ok(json) => Ok(Json::from_value(&json)),
            Err(error) => Err(DecodeError::Json(json_error_message(error))),
        },
        Err(error) => Err(DecodeError::Xdr(xdr_error_message(error))),
    }
}

} // verus!
