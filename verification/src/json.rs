//! JSON values, as far as event data are read from them.
use vstd::prelude::*;
use vstd::string::*;

use crate::text::same_text;

verus! {

/// `serde_json::Value`, a JSON value of the serde_json crate.
#[verifier::external_type_specification]
#[verifier::external_body]
pub struct ExJsonValue(serde_json::Value);

/// A JSON value in the abstract.
pub enum JsonTree {
    Null,
    Bool(bool),
    /// A number as it is written, with its value where it is a natural number of
    /// 64 bits.
    Number { value: Option<u64>, text: Seq<char> },
    Text(Seq<char>),
    /// The items, and the array as it is written.
    Array(Seq<JsonTree>, Seq<char>),
    /// The members in the order in which they are walked, and the object as it is
    /// written.
    Object(Seq<(Seq<char>, JsonTree)>, Seq<char>),
}

/// A JSON value.
pub enum Json {
    Null,
    Bool(bool),
    /// A number as it is written, with its value where it is a natural number of
    /// 64 bits.
    Number { value: Option<u64>, text: String },
    Text(String),
    /// The items, and the array as it is written.
    Array(Vec<Json>, String),
    /// The members in the order in which they are walked, and the object as it is
    /// written.
    Object(Vec<(String, Json)>, String),
}

impl Json {
    /// The value in the abstract.
    pub open spec fn tree(self) -> JsonTree
        decreases self,
    {
        match self {
            Json::Null => JsonTree::Null,
            Json::Bool(b) => JsonTree::Bool(b),
            Json::Number { value, text } => JsonTree::Number { value, text: text@ },
            Json::Text(s) => JsonTree::Text(s@),
            Json::Array(items, text) => JsonTree::Array(
                Seq::new(
                    items@.len(),
                    |i: int|
                        if 0 <= i < items@.len() {
                            items@[i].tree()
                        } else {
                            JsonTree::Null
                        },
                ),
                text@,
            ),
            Json::Object(members, text) => JsonTree::Object(
                Seq::new(
                    members@.len(),
                    |i: int|
                        if 0 <= i < members@.len() {
                            (members@[i].0@, members@[i].1.tree())
                        } else {
                            (Seq::empty(), JsonTree::Null)
                        },
                ),
                text@,
            ),
        }
    }
}

/// The items of an array in the abstract.
pub open spec fn item_trees(items: Seq<Json>) -> Seq<JsonTree> {
    items.map_values(|item: Json| item.tree())
}

/// The members of an object in the abstract.
pub open spec fn member_trees(members: Seq<(String, Json)>) -> Seq<(Seq<char>, JsonTree)> {
    members.map_values(|member: (String, Json)| (member.0@, member.1.tree()))
}

/// What a `serde_json::Value` holds.
pub uninterp spec fn value_tree(value: serde_json::Value) -> JsonTree;

/// A `serde_json::Value` taken apart by one layer.
pub enum JsonNode<'a> {
    Null,
    Bool(bool),
    Number(Option<u64>, String),
    Text(&'a str),
    Array(&'a [serde_json::Value], String),
    Object(Vec<(&'a str, &'a serde_json::Value)>, String),
}

impl<'a> JsonNode<'a> {
    /// The value that was taken apart.
    pub open spec fn tree(self) -> JsonTree {
        match self {
            JsonNode::Null => JsonTree::Null,
            JsonNode::Bool(b) => JsonTree::Bool(b),
            JsonNode::Number(value, text) => JsonTree::Number { value, text: text@ },
            JsonNode::Text(s) => JsonTree::Text(s@),
            JsonNode::Array(items, text) => JsonTree::Array(
                items@.map_values(|item: serde_json::Value| value_tree(item)),
                text@,
            ),
            JsonNode::Object(members, text) => JsonTree::Object(
                members@.map_values(
                    |member: (&str, &serde_json::Value)| (member.0@, value_tree(*member.1)),
                ),
                text@,
            ),
        }
    }
}

/// The variants of `serde_json::Value` with their contents: `Number::as_u64` of a
/// number, the items of an array, the members of an object as `Map::iter` walks
/// them, and of these three what `to_string` gives.
#[verifier::external_body]
fn value_node(value: &serde_json::Value) -> (node: JsonNode<'_>)
    ensures
        node.tree() == value_tree(*value),
{
    match value {
        serde_json::Value::Null => JsonNode::Null,
        serde_json::Value::Bool(b) => JsonNode::Bool(*b),
        serde_json::Value::Number(n) => JsonNode::Number(n.as_u64(), n.to_string()),
        serde_json::Value::String(s) => JsonNode::Text(s.as_str()),
        serde_json::Value::Array(items) => JsonNode::Array(items.as_slice(), value.to_string()),
        serde_json::Value::Object(map) => {
            let members = map.iter().map(|(key, value)| (key.as_str(), value)).collect();
            JsonNode::Object(members, value.to_string())
        },
    }
}

impl Json {
    /// The contents of a `serde_json::Value`.
    pub fn from_value(value: &serde_json::Value) -> (json: Json)
        ensures
            json.tree() == value_tree(*value),
        decreases value_tree(*value),
    {
        let ghost tree = value_tree(*value);
        match value_node(value) {
            JsonNode::Null => Json::Null,
            JsonNode::Bool(b) => Json::Bool(b),
            JsonNode::Number(value, text) => Json::Number { value, text },
            JsonNode::Text(s) => Json::Text(s.to_owned()),
            JsonNode::Array(items, text) => {
                let mut out: Vec<Json> = Vec::new();
                let mut i: usize = 0;
                while i < items.len()
                    invariant
                        i <= items@.len(),
                        out@.len() == i,
                        tree == value_tree(*value),
                        tree == JsonNode::Array(items, text).tree(),
                        forall|k: int|
                            0 <= k < i ==> out@[k].tree() == value_tree(#[trigger] items@[k]),
                    decreases items@.len() - i,
                {
                    assert(tree->Array_0[i as int] == value_tree(items@[i as int]));
                    out.push(Json::from_value(&items[i]));
                    i = i + 1;
                }
                let json = Json::Array(out, text);
                assert(json.tree()->Array_0 =~= tree->Array_0);
                json
            },
            JsonNode::Object(members, text) => {
                let mut out: Vec<(String, Json)> = Vec::new();
                let mut i: usize = 0;
                while i < members.len()
                    invariant
                        i <= members@.len(),
                        out@.len() == i,
                        tree == value_tree(*value),
                        tree == JsonNode::Object(members, text).tree(),
                        forall|k: int|
                            0 <= k < i ==> {
                                &&& (#[trigger] out@[k]).0@ == members@[k].0@
                                &&& out@[k].1.tree() == value_tree(*members@[k].1)
                            },
                    decreases members@.len() - i,
                {
                    assert(tree->Object_0[i as int].1 == value_tree(*members@[i as int].1));
                    let name = members[i].0.to_owned();
                    let inner = Json::from_value(members[i].1);
                    out.push((name, inner));
                    i = i + 1;
                }
                let json = Json::Object(out, text);
                assert(json.tree()->Object_0 =~= tree->Object_0);
                json
            },
        }
    }
}

/// A string as JSON writes it, in quotes and with escapes.
pub uninterp spec fn quoted(s: Seq<char>) -> Seq<char>;

/// `to_string` on a `serde_json::Value` that holds a string: the string in quotes,
/// with escapes. What it gives for a string is the same each time.
#[verifier::external_body]
fn quote(s: &str) -> (out: String)
    ensures
        out@ == quoted(s@),
{
    serde_json::Value::String(s.to_owned()).to_string()
}

/// A JSON value as it is written.
pub open spec fn json_text(tree: JsonTree) -> Seq<char> {
    match tree {
        JsonTree::Null => "null"@,
        JsonTree::Bool(b) => if b {
            "true"@
        } else {
            "false"@
        },
        JsonTree::Number { value: _, text } => text,
        JsonTree::Text(s) => quoted(s),
        JsonTree::Array(_, text) => text,
        JsonTree::Object(_, text) => text,
    }
}

impl Json {
    /// The value as it is written.
    pub fn text(&self) -> (out: String)
        ensures
            out@ == json_text(self.tree()),
    {
        match self {
            Json::Null => "null".to_owned(),
            Json::Bool(b) => if *b {
                "true".to_owned()
            } else {
                "false".to_owned()
            },
            Json::Number { value: _, text } => text.as_str().to_owned(),
            Json::Text(s) => quote(s.as_str()),
            Json::Array(_, text) => text.as_str().to_owned(),
            Json::Object(_, text) => text.as_str().to_owned(),
        }
    }
}

/// The position of the first member called `key`; the number of members where
/// none is.
pub open spec fn key_at(members: Seq<(Seq<char>, JsonTree)>, key: Seq<char>) -> int
    decreases members.len(),
{
    if members.len() == 0 || members[0].0 == key {
        0
    } else {
        1 + key_at(members.subrange(1, members.len() as int), key)
    }
}

/// The position of the member called by the first of `keys` that any member is
/// called by; the number of members where there is none.
pub open spec fn first_key_at(members: Seq<(Seq<char>, JsonTree)>, keys: Seq<&str>) -> int
    decreases keys.len(),
{
    if keys.len() == 0 {
        members.len() as int
    } else if key_at(members, keys[0]@) < members.len() {
        key_at(members, keys[0]@)
    } else {
        first_key_at(members, keys.subrange(1, keys.len() as int))
    }
}

/// The position of the member that an object stands for: the one called by the
/// first of `keys` that any is called by, else the only one.
pub open spec fn wrapped_at(members: Seq<(Seq<char>, JsonTree)>, keys: Seq<&str>) -> int {
    if first_key_at(members, keys) < members.len() {
        first_key_at(members, keys)
    } else if members.len() == 1 {
        0
    } else {
        members.len() as int
    }
}

/// `s` is one of `names`.
pub open spec fn is_one_of(s: Seq<char>, names: Seq<&str>) -> bool {
    exists|i: int| 0 <= i < names.len() && (#[trigger] names[i])@ == s
}

pub proof fn lemma_key_at_range(members: Seq<(Seq<char>, JsonTree)>, key: Seq<char>)
    ensures
        0 <= key_at(members, key) <= members.len(),
    decreases members.len(),
{
    if members.len() != 0 && members[0].0 != key {
        lemma_key_at_range(members.subrange(1, members.len() as int), key);
    }
}

/// Whether `s` is one of `names`.
pub fn matches_one_of(s: &str, names: &[&str]) -> (found: bool)
    ensures
        found == is_one_of(s@, names@),
{
    let mut i: usize = 0;
    while i < names.len()
        invariant
            i <= names@.len(),
            forall|k: int| 0 <= k < i ==> (#[trigger] names@[k])@ != s@,
        decreases names@.len() - i,
    {
        if same_text(s, names[i]) {
            return true;
        }
        i = i + 1;
    }
    false
}

/// The position of the first member called `key`.
pub(crate) fn position_of(members: &Vec<(String, Json)>, key: &str) -> (at: usize)
    ensures
        at == key_at(member_trees(members@), key@),
        at <= members@.len(),
{
    let ghost all = member_trees(members@);
    let n: usize = members.len();
    let mut i: usize = 0;
    assert(all.subrange(0, n as int) =~= all);
    while i < n && !same_text(members[i].0.as_str(), key)
        invariant
            n == members@.len(),
            i <= n,
            all == member_trees(members@),
            key_at(all, key@) == i + key_at(all.subrange(i as int, n as int), key@),
        decreases n - i,
    {
        let ghost rest = all.subrange(i as int, n as int);
        assert(rest[0].0 == members@[i as int].0@);
        assert(rest.subrange(1, rest.len() as int) =~= all.subrange(i + 1, n as int));
        i = i + 1;
    }
    i
}

/// The position of the member called by the first of `keys` that any is called by.
pub(crate) fn first_position_of(members: &Vec<(String, Json)>, keys: &[&str]) -> (at: usize)
    ensures
        at == first_key_at(member_trees(members@), keys@),
        at <= members@.len(),
{
    let ghost all = member_trees(members@);
    let n: usize = keys.len();
    let mut i: usize = 0;
    assert(keys@.subrange(0, n as int) =~= keys@);
    while i < n
        invariant
            n == keys@.len(),
            i <= n,
            all == member_trees(members@),
            first_key_at(all, keys@) == first_key_at(all, keys@.subrange(i as int, n as int)),
        decreases n - i,
    {
        let at = position_of(members, keys[i]);
        if at < members.len() {
            return at;
        }
        let ghost rest = keys@.subrange(i as int, n as int);
        assert(rest.subrange(1, rest.len() as int) =~= keys@.subrange(i + 1, n as int));
        i = i + 1;
    }
    members.len()
}

/// The member that an object stands for.
pub(crate) fn wrapped_position(members: &Vec<(String, Json)>, keys: &[&str]) -> (at: usize)
    ensures
        at == wrapped_at(member_trees(members@), keys@),
        at <= members@.len(),
{
    let at = first_position_of(members, keys);
    if at < members.len() {
        at
    } else if members.len() == 1 {
        0
    } else {
        members.len()
    }
}

} // verus!
