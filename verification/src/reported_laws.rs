//! What is read of the events that the RPC service reports, in the forms in which JSON
//! shows them.
use vstd::prelude::*;
use vstd::string::*;

use crate::encoding::is_base64_of;
use crate::event_laws::all_hashes;
use crate::events::{FieldFault, MixerTreeEvent, TreeEvent, ValueError};
use crate::hash_laws::{
    every_form_of_a_hash_is_read, hash_is_read_only_from_its_text, lemma_only_member, stands_for,
    writes, JsonForm, TextForm,
};
use crate::json::{first_key_at, is_one_of, key_at, lemma_key_at_range, wrapped_at, JsonTree};
use crate::json_events::{
    found_symbol, hash_field, hash_keys, hashes_field, json_event, json_hash, json_hashes,
    json_number, keyed_value, list_bytes, list_hashes, named_in_items, named_in_members,
    named_value, names_value, number_field, symbol_at, symbol_is_one_of, symbols_of,
    symbols_of_items, symbols_of_members, topic_words,
};
use crate::rpc_events::{
    parse_mixer_tree_event, reported_tree_event, topics_symbols, RpcEvent, RpcEventError,
    RpcEventFault,
};
use crate::scval::{decoded_json, DecodeFault};
use crate::text::{decimal, decimal_reads_back, trimmed};
use crate::text_laws::{number_text_is_read, writes_number};

verus! {

/// The names of the fields of events.
pub open spec fn all_names() -> Seq<&'static str> {
    seq![
        "index",
        "change_index",
        "start_index",
        "leaf",
        "output_leaf",
        "change_leaf",
        "output_leaves",
        "root",
    ]
}

/// The name is one that a field goes by.
pub open spec fn is_field_name(name: Seq<char>) -> bool {
    is_one_of(name, all_names())
}

/// Each of the names is one that a field goes by.
pub open spec fn are_field_names(names: Seq<&str>) -> bool {
    forall|i: int| 0 <= i < names.len() ==> is_field_name((#[trigger] names[i])@)
}

/// The words that JSON shows contract maps with are no names of fields.
proof fn lemma_other_words()
    ensures
        !is_field_name("map"@),
        !is_field_name("key"@),
        !is_field_name("val"@),
        !is_field_name("symbol"@),
        !is_field_name("sym"@),
        !is_field_name("value"@),
        "key"@ != "val"@,
        "key"@ != "value"@,
        "val"@ != "value"@,
        "sym"@ != "key"@,
        "map"@ != "key"@,
        "symbol"@ != "key"@,
        "symbol"@ != "sym"@,
{
    reveal_strlit("map");
    reveal_strlit("key");
    reveal_strlit("val");
    reveal_strlit("symbol");
    reveal_strlit("sym");
    reveal_strlit("value");
    reveal_strlit("index");
    reveal_strlit("change_index");
    reveal_strlit("start_index");
    reveal_strlit("leaf");
    reveal_strlit("output_leaf");
    reveal_strlit("change_leaf");
    reveal_strlit("output_leaves");
    reveal_strlit("root");
    assert("key"@[0] != "val"@[0]);
    assert("map"@[0] != "key"@[0]);
    assert("symbol"@.len() == 6 && "sym"@.len() == 3);
    assert("value"@.len() == 5 && "val"@.len() == 3 && "key"@.len() == 3);
    assert("sym"@[0] != "key"@[0]);
    assert forall|i: int| 0 <= i < all_names().len() implies {
        let name = (#[trigger] all_names()[i])@;
        name.len() > 3 && name.len() != 6 && (name.len() == 5 ==> name[0] == 'i')
    } by {
        assert(i == 0 || i == 1 || i == 2 || i == 3 || i == 4 || i == 5 || i == 6 || i == 7);
    }
}

/// The value of a field, without fields of its own: text, a number, or such values in
/// lists and in objects of one member.
pub open spec fn is_plain(tree: JsonTree) -> bool
    decreases tree,
{
    match tree {
        JsonTree::Array(items, _) => forall|i: int|
            0 <= i < items.len() ==> is_plain(#[trigger] items[i]),
        JsonTree::Object(members, _) => {
            &&& members.len() == 1
            &&& !is_field_name(members[0].0)
            &&& members[0].0 != "key"@
            &&& is_plain(members[0].1)
        },
        _ => true,
    }
}

/// JSON shows a name: as text, or as a symbol.
pub open spec fn is_name(tree: JsonTree, name: Seq<char>) -> bool {
    ||| tree == JsonTree::Text(name)
    ||| tree matches JsonTree::Object(members, _) && members.len() == 1 && (members[0].0
        == "symbol"@ || members[0].0 == "sym"@) && members[0].1 == JsonTree::Text(name)
}

/// JSON shows an entry of a contract map.
pub open spec fn is_entry(tree: JsonTree, name: Seq<char>, value: JsonTree) -> bool {
    &&& tree matches JsonTree::Object(members, _)
    &&& members.len() == 2
    &&& members[0].0 == "key"@
    &&& is_name(members[0].1, name)
    &&& members[1].0 == "val"@ || members[1].0 == "value"@
    &&& members[1].1 == value
}

/// JSON shows a contract map of plain values.
pub open spec fn is_map(tree: JsonTree, entries: Seq<(Seq<char>, JsonTree)>) -> bool {
    &&& tree matches JsonTree::Object(members, _)
    &&& members.len() == 1
    &&& members[0].0 == "map"@
    &&& members[0].1 matches JsonTree::Array(items, _)
    &&& items.len() == entries.len()
    &&& forall|i: int|
        0 <= i < items.len() ==> is_entry(#[trigger] items[i], entries[i].0, entries[i].1)
    &&& forall|i: int| 0 <= i < entries.len() ==> is_plain((#[trigger] entries[i]).1)
}

/// The entry at position `i` is the first that goes by one of the names.
pub open spec fn is_first(entries: Seq<(Seq<char>, JsonTree)>, names: Seq<&str>, i: int) -> bool {
    &&& 0 <= i < entries.len()
    &&& is_one_of(entries[i].0, names)
    &&& forall|j: int| 0 <= j < i ==> !is_one_of((#[trigger] entries[j]).0, names)
}

/// A contract map shows the field at position `i` of its entries.
pub open spec fn in_map(
    tree: JsonTree,
    names: Seq<&str>,
    value: JsonTree,
    entries: Seq<(Seq<char>, JsonTree)>,
    i: int,
) -> bool {
    &&& is_map(tree, entries)
    &&& is_first(entries, names, i)
    &&& entries[i].1 == value
}

/// An object shows the field as member `i`, under name `j`; no member goes by an earlier
/// name.
pub open spec fn in_object(tree: JsonTree, names: Seq<&str>, value: JsonTree, i: int, j: int) -> bool {
    &&& tree matches JsonTree::Object(members, _)
    &&& 0 <= i < members.len()
    &&& 0 <= j < names.len()
    &&& members[i].0 == names[j]@
    &&& members[i].1 == value
    &&& forall|k: int| 0 <= k < i ==> (#[trigger] members[k]).0 != names[j]@
    &&& forall|k: int, h: int|
        0 <= k < members.len() && 0 <= h < j ==> (#[trigger] members[k]).0 != (
        #[trigger] names[h])@
}

/// Some member or text in a value, at any depth, is one of the names.
pub open spec fn mentions(tree: JsonTree, names: Seq<&str>) -> bool
    decreases tree,
{
    match tree {
        JsonTree::Text(s) => is_one_of(s, names),
        JsonTree::Array(items, _) => exists|i: int|
            0 <= i < items.len() && mentions(#[trigger] items[i], names),
        JsonTree::Object(members, _) => exists|i: int|
            0 <= i < members.len() && (is_one_of((#[trigger] members[i]).0, names) || mentions(
                members[i].1,
                names,
            )),
        _ => false,
    }
}

/// No member goes by one of the names, and the object is no map entry.
pub open spec fn holds_none(members: Seq<(Seq<char>, JsonTree)>, names: Seq<&str>) -> bool {
    forall|i: int|
        0 <= i < members.len() ==> !is_one_of((#[trigger] members[i]).0, names) && members[i].0
            != "key"@
}

/// The value shows a field that goes by one of the names: as an entry of a contract map, as
/// a member of an object, as a map entry, or in the first item or member that mentions it.
pub open spec fn shows(tree: JsonTree, names: Seq<&str>, value: JsonTree) -> bool
    decreases tree,
{
    ||| exists|entries: Seq<(Seq<char>, JsonTree)>, i: int|
        #[trigger] in_map(tree, names, value, entries, i)
    ||| exists|i: int, j: int| #[trigger] in_object(tree, names, value, i, j)
    ||| exists|name: Seq<char>|
        #[trigger] is_entry(tree, name, value) && is_one_of(name, names) && is_plain(value)
    ||| match tree {
        JsonTree::Array(items, _) => exists|i: int|
            0 <= i < items.len() && shows(#[trigger] items[i], names, value) && forall|j: int|
                0 <= j < i ==> !mentions(#[trigger] items[j], names),
        JsonTree::Object(members, _) => holds_none(members, names) && exists|i: int|
            0 <= i < members.len() && shows((#[trigger] members[i]).1, names, value) && forall|
                j: int,
            |
                0 <= j < i ==> !mentions((#[trigger] members[j]).1, names),
        _ => false,
    }
}

/// No member goes by a name.
proof fn lemma_no_key(members: Seq<(Seq<char>, JsonTree)>, name: Seq<char>)
    requires
        forall|i: int| 0 <= i < members.len() ==> (#[trigger] members[i]).0 != name,
    ensures
        key_at(members, name) == members.len(),
    decreases members.len(),
{
    if members.len() > 0 {
        let rest = members.subrange(1, members.len() as int);
        assert(members[0].0 != name);
        assert forall|i: int| 0 <= i < rest.len() implies (#[trigger] rest[i]).0 != name by {
            assert(rest[i] == members[i + 1]);
        }
        lemma_no_key(rest, name);
    }
}

/// The first member that goes by a name.
proof fn lemma_key(members: Seq<(Seq<char>, JsonTree)>, name: Seq<char>, i: int)
    requires
        0 <= i < members.len(),
        members[i].0 == name,
        forall|k: int| 0 <= k < i ==> (#[trigger] members[k]).0 != name,
    ensures
        key_at(members, name) == i,
    decreases i,
{
    if i > 0 {
        let rest = members.subrange(1, members.len() as int);
        assert(members[0].0 != name);
        assert forall|k: int| 0 <= k < i - 1 implies (#[trigger] rest[k]).0 != name by {
            assert(rest[k] == members[k + 1]);
        }
        lemma_key(rest, name, i - 1);
    }
}

/// No member goes by any of the names.
proof fn lemma_no_first_key(members: Seq<(Seq<char>, JsonTree)>, names: Seq<&str>)
    requires
        forall|i: int, j: int|
            0 <= i < members.len() && 0 <= j < names.len() ==> (#[trigger] members[i]).0 != (
            #[trigger] names[j])@,
    ensures
        first_key_at(members, names) == members.len(),
    decreases names.len(),
{
    if names.len() > 0 {
        lemma_no_key(members, names[0]@);
        let rest = names.subrange(1, names.len() as int);
        assert forall|i: int, j: int| 0 <= i < members.len() && 0 <= j < rest.len() implies (
        #[trigger] members[i]).0 != (#[trigger] rest[j])@ by {
            assert(rest[j] == names[j + 1]);
        }
        lemma_no_first_key(members, rest);
    }
}

/// The member that goes by the first name that any goes by.
proof fn lemma_first_key(members: Seq<(Seq<char>, JsonTree)>, names: Seq<&str>, i: int, j: int)
    requires
        0 <= i < members.len(),
        0 <= j < names.len(),
        members[i].0 == names[j]@,
        forall|k: int| 0 <= k < i ==> (#[trigger] members[k]).0 != names[j]@,
        forall|k: int, h: int|
            0 <= k < members.len() && 0 <= h < j ==> (#[trigger] members[k]).0 != (
            #[trigger] names[h])@,
    ensures
        first_key_at(members, names) == i,
    decreases j,
{
    if j == 0 {
        lemma_key(members, names[0]@, i);
    } else {
        lemma_no_key(members, names[0]@);
        let rest = names.subrange(1, names.len() as int);
        assert(rest[j - 1] == names[j]);
        assert forall|k: int, h: int| 0 <= k < members.len() && 0 <= h < j - 1 implies (
        #[trigger] members[k]).0 != (#[trigger] rest[h])@ by {
            assert(rest[h] == names[h + 1]);
        }
        lemma_first_key(members, rest, i, j - 1);
    }
}

/// Members that go by no field name.
proof fn lemma_no_field(members: Seq<(Seq<char>, JsonTree)>, names: Seq<&str>)
    requires
        are_field_names(names),
        forall|i: int| 0 <= i < members.len() ==> !is_field_name((#[trigger] members[i]).0),
    ensures
        first_key_at(members, names) == members.len(),
{
    assert forall|i: int, j: int| 0 <= i < members.len() && 0 <= j < names.len() implies (
    #[trigger] members[i]).0 != (#[trigger] names[j])@ by {
        assert(is_field_name(names[j]@));
    }
    lemma_no_first_key(members, names);
}

/// What is found in the only member.
proof fn lemma_in_only_member(members: Seq<(Seq<char>, JsonTree)>, names: Seq<&str>)
    requires
        members.len() == 1,
    ensures
        named_in_members(members, names) == named_value(members[0].1, names),
{
    let rest = members.subrange(1, 1);
    assert(rest.len() == 0);
    assert(named_in_members(rest, names) is None);
}

/// No field is found in a plain value.
proof fn lemma_plain(tree: JsonTree, names: Seq<&str>)
    requires
        are_field_names(names),
        is_plain(tree),
    ensures
        named_value(tree, names) is None,
    decreases tree, 1nat,
{
    match tree {
        JsonTree::Array(items, _) => {
            lemma_plain_items(items, names);
            assert(named_value(tree, names) == named_in_items(items, names));
        },
        JsonTree::Object(members, _) => {
            lemma_no_field(members, names);
            lemma_no_key(members, "key"@);
            lemma_plain(members[0].1, names);
            lemma_in_only_member(members, names);
            assert(named_value(tree, names) == named_in_members(members, names));
        },
        _ => {},
    }
}

proof fn lemma_plain_items(items: Seq<JsonTree>, names: Seq<&str>)
    requires
        are_field_names(names),
        forall|i: int| 0 <= i < items.len() ==> is_plain(#[trigger] items[i]),
    ensures
        named_in_items(items, names) is None,
    decreases items, 0nat,
{
    if items.len() > 0 {
        lemma_plain(items[0], names);
        let rest = items.subrange(1, items.len() as int);
        assert forall|i: int| 0 <= i < rest.len() implies is_plain(#[trigger] rest[i]) by {
            assert(rest[i] == items[i + 1]);
        }
        lemma_plain_items(rest, names);
    }
}

/// A key stands for its name.
proof fn lemma_symbol_key(key: JsonTree, name: Seq<char>, names: Seq<&str>)
    requires
        are_field_names(names),
        is_name(key, name),
        key is Object,
    ensures
        names_value(key, names) == is_one_of(name, names),
        named_value(key, names) is None,
{
    lemma_other_words();
    let members = key->Object_0;
    if members[0].0 == "symbol"@ {
        lemma_key(members, "symbol"@, 0);
        lemma_no_key(members, "sym"@);
    } else {
        lemma_key(members, "sym"@, 0);
        lemma_no_key(members, "symbol"@);
    }
    lemma_no_key(members, "key"@);
    lemma_no_field(members, names);
    assert(names_value(members[0].1, names) == is_one_of(name, names));
    lemma_in_only_member(members, names);
    assert(named_value(members[0].1, names) is None);
    assert(named_value(key, names) == named_in_members(members, names));
}

/// The field that an entry shows, or none.
proof fn lemma_entry(tree: JsonTree, name: Seq<char>, value: JsonTree, names: Seq<&str>)
    requires
        are_field_names(names),
        is_entry(tree, name, value),
        is_plain(value),
    ensures
        named_value(tree, names) == if is_one_of(name, names) {
            Some(value)
        } else {
            None
        },
{
    lemma_other_words();
    let members = tree->Object_0;
    lemma_no_field(members, names);
    lemma_key(members, "key"@, 0);
    if members[1].0 == "val"@ {
        lemma_key(members, "val"@, 1);
    } else {
        lemma_no_key(members, "val"@);
        lemma_key(members, "value"@, 1);
    }
    if members[0].1 is Object {
        lemma_symbol_key(members[0].1, name, names);
    } else {
        assert(names_value(members[0].1, names) == is_one_of(name, names));
        assert(named_value(members[0].1, names) is None);
    }
    if is_one_of(name, names) {
        assert(keyed_value(members, names) == Some(value));
    } else {
        assert(keyed_value(members, names) is None);
        lemma_plain(value, names);
        let rest = members.subrange(1, 2);
        assert(rest[0] == members[1]);
        lemma_in_only_member(rest, names);
        assert(named_in_members(members, names) == named_in_members(rest, names));
        assert(named_value(tree, names) == named_in_members(members, names));
    }
}

/// The field that entries show.
proof fn lemma_entries(
    items: Seq<JsonTree>,
    entries: Seq<(Seq<char>, JsonTree)>,
    names: Seq<&str>,
    i: int,
)
    requires
        are_field_names(names),
        items.len() == entries.len(),
        forall|k: int|
            0 <= k < items.len() ==> is_entry(#[trigger] items[k], entries[k].0, entries[k].1),
        forall|k: int| 0 <= k < entries.len() ==> is_plain((#[trigger] entries[k]).1),
        is_first(entries, names, i),
    ensures
        named_in_items(items, names) == Some(entries[i].1),
    decreases i,
{
    assert(is_entry(items[0], entries[0].0, entries[0].1));
    assert(is_plain(entries[0].1));
    lemma_entry(items[0], entries[0].0, entries[0].1, names);
    if i > 0 {
        assert(!is_one_of(entries[0].0, names));
        let (x, y) = (
            items.subrange(1, items.len() as int),
            entries.subrange(1, entries.len() as int),
        );
        assert forall|k: int| 0 <= k < x.len() implies is_entry(#[trigger] x[k], y[k].0, y[k].1) by {
            assert(x[k] == items[k + 1]);
        }
        assert forall|k: int| 0 <= k < y.len() implies is_plain((#[trigger] y[k]).1) by {
            assert(y[k] == entries[k + 1]);
        }
        assert forall|k: int| 0 <= k < i - 1 implies !is_one_of((#[trigger] y[k]).0, names) by {
            assert(y[k] == entries[k + 1]);
        }
        assert(y[i - 1] == entries[i]);
        lemma_entries(x, y, names, i - 1);
    }
}

/// Members that do not go by the names.
proof fn lemma_none_named(members: Seq<(Seq<char>, JsonTree)>, names: Seq<&str>)
    requires
        forall|i: int| 0 <= i < members.len() ==> !is_one_of((#[trigger] members[i]).0, names),
    ensures
        first_key_at(members, names) == members.len(),
{
    assert forall|i: int, j: int| 0 <= i < members.len() && 0 <= j < names.len() implies (
    #[trigger] members[i]).0 != (#[trigger] names[j])@ by {
        assert(!is_one_of(members[i].0, names));
    }
    lemma_no_first_key(members, names);
}

/// A value that does not mention a field stands for none of its names.
proof fn lemma_stands_for_none(tree: JsonTree, names: Seq<&str>)
    requires
        !mentions(tree, names),
    ensures
        !names_value(tree, names),
    decreases tree,
{
    match tree {
        JsonTree::Array(items, _) => {
            assert forall|i: int| 0 <= i < items.len() implies !names_value(
                #[trigger] items[i],
                names,
            ) by {
                assert(!mentions(items[i], names));
                lemma_stands_for_none(items[i], names);
            }
        },
        JsonTree::Object(members, _) => {
            assert forall|i: int| 0 <= i < members.len() implies !names_value(
                (#[trigger] members[i]).1,
                names,
            ) by {
                assert(!mentions(members[i].1, names));
                lemma_stands_for_none(members[i].1, names);
            }
            lemma_no_symbol(members, "symbol"@, names);
            lemma_no_symbol(members, "sym"@, names);
        },
        _ => {},
    }
}

proof fn lemma_no_symbol(members: Seq<(Seq<char>, JsonTree)>, key: Seq<char>, names: Seq<&str>)
    requires
        forall|i: int| 0 <= i < members.len() ==> !mentions((#[trigger] members[i]).1, names),
    ensures
        !symbol_is_one_of(members, key, names),
{
    lemma_key_at_range(members, key);
    let at = key_at(members, key);
    if at < members.len() {
        assert(!mentions(members[at].1, names));
    }
}

/// Nothing is found of a field that is not mentioned.
pub proof fn unmentioned_field_is_not_found(tree: JsonTree, names: Seq<&str>)
    requires
        !mentions(tree, names),
    ensures
        named_value(tree, names) is None,
    decreases tree, 1nat,
{
    match tree {
        JsonTree::Array(items, _) => {
            assert forall|i: int| 0 <= i < items.len() implies !mentions(
                #[trigger] items[i],
                names,
            ) by {}
            lemma_none_in_items(items, names);
            assert(named_value(tree, names) == named_in_items(items, names));
        },
        JsonTree::Object(members, _) => {
            assert forall|i: int| 0 <= i < members.len() implies !is_one_of(
                (#[trigger] members[i]).0,
                names,
            ) && !mentions(members[i].1, names) by {}
            lemma_none_named(members, names);
            lemma_key_at_range(members, "key"@);
            let at = key_at(members, "key"@);
            if at < members.len() {
                assert(!mentions(members[at].1, names));
                lemma_stands_for_none(members[at].1, names);
            }
            assert(keyed_value(members, names) is None);
            lemma_none_in_members(members, names);
            assert(named_value(tree, names) == named_in_members(members, names));
        },
        _ => {},
    }
}

proof fn lemma_none_in_items(items: Seq<JsonTree>, names: Seq<&str>)
    requires
        forall|i: int| 0 <= i < items.len() ==> !mentions(#[trigger] items[i], names),
    ensures
        named_in_items(items, names) is None,
    decreases items, 0nat,
{
    if items.len() > 0 {
        assert(!mentions(items[0], names));
        unmentioned_field_is_not_found(items[0], names);
        let rest = items.subrange(1, items.len() as int);
        assert forall|i: int| 0 <= i < rest.len() implies !mentions(#[trigger] rest[i], names) by {
            assert(rest[i] == items[i + 1]);
        }
        lemma_none_in_items(rest, names);
    }
}

proof fn lemma_none_in_members(members: Seq<(Seq<char>, JsonTree)>, names: Seq<&str>)
    requires
        forall|i: int| 0 <= i < members.len() ==> !mentions((#[trigger] members[i]).1, names),
    ensures
        named_in_members(members, names) is None,
    decreases members, 0nat,
{
    if members.len() > 0 {
        assert(!mentions(members[0].1, names));
        unmentioned_field_is_not_found(members[0].1, names);
        let rest = members.subrange(1, members.len() as int);
        assert forall|i: int| 0 <= i < rest.len() implies !mentions(
            (#[trigger] rest[i]).1,
            names,
        ) by {
            assert(rest[i] == members[i + 1]);
        }
        lemma_none_in_members(rest, names);
    }
}

proof fn lemma_shown_in_items(items: Seq<JsonTree>, names: Seq<&str>, value: JsonTree, i: int)
    requires
        are_field_names(names),
        0 <= i < items.len(),
        shows(items[i], names, value),
        forall|j: int| 0 <= j < i ==> !mentions(#[trigger] items[j], names),
    ensures
        named_in_items(items, names) == Some(value),
    decreases items, 0nat,
{
    if i == 0 {
        shown_field_is_found(items[0], names, value);
    } else {
        assert(!mentions(items[0], names));
        unmentioned_field_is_not_found(items[0], names);
        let rest = items.subrange(1, items.len() as int);
        assert(rest[i - 1] == items[i]);
        assert forall|j: int| 0 <= j < i - 1 implies !mentions(#[trigger] rest[j], names) by {
            assert(rest[j] == items[j + 1]);
        }
        lemma_shown_in_items(rest, names, value, i - 1);
    }
}

proof fn lemma_shown_in_members(
    members: Seq<(Seq<char>, JsonTree)>,
    names: Seq<&str>,
    value: JsonTree,
    i: int,
)
    requires
        are_field_names(names),
        0 <= i < members.len(),
        shows(members[i].1, names, value),
        forall|j: int| 0 <= j < i ==> !mentions((#[trigger] members[j]).1, names),
    ensures
        named_in_members(members, names) == Some(value),
    decreases members, 0nat,
{
    if i == 0 {
        shown_field_is_found(members[0].1, names, value);
    } else {
        assert(!mentions(members[0].1, names));
        unmentioned_field_is_not_found(members[0].1, names);
        let rest = members.subrange(1, members.len() as int);
        assert(rest[i - 1] == members[i]);
        assert forall|j: int| 0 <= j < i - 1 implies !mentions((#[trigger] rest[j]).1, names) by {
            assert(rest[j] == members[j + 1]);
        }
        lemma_shown_in_members(rest, names, value, i - 1);
    }
}

/// A field is found with the value that is shown for it, wherever it is shown.
pub proof fn shown_field_is_found(tree: JsonTree, names: Seq<&str>, value: JsonTree)
    requires
        are_field_names(names),
        shows(tree, names, value),
    ensures
        named_value(tree, names) == Some(value),
    decreases tree, 1nat,
{
    let members = tree->Object_0;
    if exists|entries: Seq<(Seq<char>, JsonTree)>, i: int|
        #[trigger] in_map(tree, names, value, entries, i) {
        let (entries, i) = choose|entries: Seq<(Seq<char>, JsonTree)>, i: int|
            #[trigger] in_map(tree, names, value, entries, i);
        let items = members[0].1->Array_0;
        lemma_other_words();
        lemma_no_field(members, names);
        lemma_no_key(members, "key"@);
        lemma_entries(items, entries, names, i);
        lemma_in_only_member(members, names);
        assert(named_value(members[0].1, names) == named_in_items(items, names));
        assert(named_value(tree, names) == named_in_members(members, names));
    } else if exists|i: int, j: int| #[trigger] in_object(tree, names, value, i, j) {
        let (i, j) = choose|i: int, j: int| #[trigger] in_object(tree, names, value, i, j);
        lemma_first_key(members, names, i, j);
    } else if exists|name: Seq<char>|
        #[trigger] is_entry(tree, name, value) && is_one_of(name, names) && is_plain(value) {
        let name = choose|name: Seq<char>|
            #[trigger] is_entry(tree, name, value) && is_one_of(name, names) && is_plain(value);
        lemma_entry(tree, name, value, names);
    } else {
        match tree {
            JsonTree::Array(items, _) => {
                let i = choose|i: int|
                    0 <= i < items.len() && shows(#[trigger] items[i], names, value) && forall|
                        j: int,
                    |
                        0 <= j < i ==> !mentions(#[trigger] items[j], names);
                lemma_shown_in_items(items, names, value, i);
                assert(named_value(tree, names) == named_in_items(items, names));
            },
            JsonTree::Object(members, _) => {
                let i = choose|i: int|
                    0 <= i < members.len() && shows((#[trigger] members[i]).1, names, value)
                        && forall|j: int|
                        0 <= j < i ==> !mentions((#[trigger] members[j]).1, names);
                assert forall|k: int| 0 <= k < members.len() implies !is_one_of(
                    (#[trigger] members[k]).0,
                    names,
                ) by {}
                lemma_none_named(members, names);
                lemma_no_key(members, "key"@);
                lemma_shown_in_members(members, names, value, i);
                assert(named_value(tree, names) == named_in_members(members, names));
            },
            _ => {},
        }
    }
}

/// An object with a member that wraps a value stands for what that value stands for: the
/// member called by the first of the wrapping names that any goes by.
pub proof fn wrapped_value_is_read(tree: JsonTree, value: JsonTree, i: int, j: int)
    ensures
        in_object(tree, seq!["u64", "u32", "i64", "i32"], value, i, j) ==> json_number(tree)
            == json_number(value),
        in_object(
            tree,
            seq!["bytes", "bytesN", "bytesn", "bytesN32", "BytesN", "hash"],
            value,
            i,
            j,
        ) ==> json_hash(tree) == json_hash(value),
        in_object(tree, seq!["vec", "Vec", "values", "output_leaves"], value, i, j) ==> json_hashes(
            tree,
        ) == json_hashes(value),
{
    let members = tree->Object_0;
    if in_object(tree, seq!["u64", "u32", "i64", "i32"], value, i, j) {
        lemma_first_key(members, seq!["u64", "u32", "i64", "i32"], i, j);
    }
    if in_object(
        tree,
        seq!["bytes", "bytesN", "bytesn", "bytesN32", "BytesN", "hash"],
        value,
        i,
        j,
    ) {
        lemma_first_key(
            members,
            seq!["bytes", "bytesN", "bytesn", "bytesN32", "BytesN", "hash"],
            i,
            j,
        );
    }
    if in_object(tree, seq!["vec", "Vec", "values", "output_leaves"], value, i, j) {
        lemma_first_key(members, seq!["vec", "Vec", "values", "output_leaves"], i, j);
    }
}

/// A JSON value stands for a number: a number, or the text of one, bare or the value of
/// the only member of an object.
pub open spec fn is_number(tree: JsonTree, n: u64) -> bool
    decreases tree,
{
    match tree {
        JsonTree::Number { value, text: _ } => value == Some(n),
        JsonTree::Text(s) => s == decimal(n as nat),
        JsonTree::Object(members, _) => members.len() == 1 && is_number(members[0].1, n),
        _ => false,
    }
}

/// Each form of a number is read as that number.
pub proof fn every_form_of_a_number_is_read(tree: JsonTree, n: u64)
    requires
        is_number(tree, n),
    ensures
        json_number(tree) == Ok::<u64, ValueError>(n),
    decreases tree,
{
    match tree {
        JsonTree::Text(_) => {
            decimal_reads_back(n as nat, u64::MAX as nat);
        },
        JsonTree::Object(members, _) => {
            lemma_only_member(members, seq!["u64", "u32", "i64", "i32"]);
            every_form_of_a_number_is_read(members[0].1, n);
        },
        _ => {},
    }
}

/// A JSON value stands for a hash.
pub open spec fn is_hash(tree: JsonTree, hash: Seq<u8>) -> bool {
    exists|form: JsonForm| #[trigger] stands_for(form, tree, hash)
}

/// A JSON value stands for a list of hashes: a list of their forms, bare or the value of
/// the only member of an object.
pub open spec fn is_hash_list(tree: JsonTree, list: Seq<Seq<u8>>) -> bool
    decreases tree,
{
    match tree {
        JsonTree::Array(items, _) => {
            &&& items.len() == list.len()
            &&& forall|i: int| 0 <= i < items.len() ==> is_hash(#[trigger] items[i], list[i])
        },
        JsonTree::Object(members, _) => members.len() == 1 && is_hash_list(members[0].1, list),
        _ => false,
    }
}

proof fn lemma_hash(tree: JsonTree, hash: Seq<u8>)
    requires
        hash.len() == 32,
        is_hash(tree, hash),
    ensures
        json_hash(tree) == Ok::<Seq<u8>, ValueError>(hash),
{
    let form = choose|form: JsonForm| #[trigger] stands_for(form, tree, hash);
    every_form_of_a_hash_is_read(form, tree, hash);
}

proof fn lemma_hash_items(items: Seq<JsonTree>, list: Seq<Seq<u8>>)
    requires
        all_hashes(list),
        items.len() == list.len(),
        forall|i: int| 0 <= i < items.len() ==> is_hash(#[trigger] items[i], list[i]),
    ensures
        list_hashes(items) == Ok::<Seq<Seq<u8>>, ValueError>(list),
    decreases items.len(),
{
    if items.len() == 0 {
        assert(list =~= Seq::empty());
    } else {
        let (x, y) = (items.drop_last(), list.drop_last());
        assert forall|i: int| 0 <= i < x.len() implies is_hash(#[trigger] x[i], y[i]) by {
            assert(x[i] == items[i]);
        }
        assert forall|i: int| 0 <= i < y.len() implies (#[trigger] y[i]).len() == 32 by {
            assert(y[i] == list[i]);
        }
        lemma_hash_items(x, y);
        let n = items.len() - 1;
        assert(is_hash(items[n], list[n]));
        assert(list[n].len() == 32);
        lemma_hash(items.last(), list.last());
        assert(y.push(list.last()) =~= list);
    }
}

/// Each form of a list of hashes is read as that list, in order.
pub proof fn every_form_of_a_hash_list_is_read(tree: JsonTree, list: Seq<Seq<u8>>)
    requires
        all_hashes(list),
        is_hash_list(tree, list),
    ensures
        json_hashes(tree) == Ok::<Seq<Seq<u8>>, ValueError>(list),
    decreases tree,
{
    match tree {
        JsonTree::Array(items, _) => {
            lemma_hash_items(items, list);
        },
        JsonTree::Object(members, _) => {
            lemma_only_member(members, seq!["vec", "Vec", "values", "output_leaves"]);
            every_form_of_a_hash_list_is_read(members[0].1, list);
        },
        _ => {},
    }
}

/// The value shows a number in a field.
pub open spec fn shows_number(tree: JsonTree, names: Seq<&str>, n: u64) -> bool {
    exists|value: JsonTree| #[trigger] shows(tree, names, value) && is_number(value, n)
}

/// The value shows a hash in a field.
pub open spec fn shows_hash(tree: JsonTree, names: Seq<&str>, hash: Seq<u8>) -> bool {
    exists|value: JsonTree| #[trigger] shows(tree, names, value) && is_hash(value, hash)
}

/// The value shows a list of hashes in a field.
pub open spec fn shows_hashes(tree: JsonTree, names: Seq<&str>, list: Seq<Seq<u8>>) -> bool {
    exists|value: JsonTree| #[trigger] shows(tree, names, value) && is_hash_list(value, list)
}

/// The value shows the fields of an event, each under one of the names that it goes by.
pub open spec fn shows_event(tree: JsonTree, event: TreeEvent) -> bool {
    match event {
        TreeEvent::Deposit { index, leaf, root } => {
            &&& shows_number(tree, seq!["index"], index)
            &&& shows_hash(tree, seq!["leaf"], leaf)
            &&& shows_hash(tree, seq!["root"], root)
            &&& leaf.len() == 32
            &&& root.len() == 32
        },
        TreeEvent::WithdrawChange { index, leaf, root } => {
            &&& shows_number(tree, seq!["index", "change_index"], index)
            &&& shows_hash(tree, seq!["output_leaf", "change_leaf", "leaf"], leaf)
            &&& shows_hash(tree, seq!["root"], root)
            &&& leaf.len() == 32
            &&& root.len() == 32
        },
        TreeEvent::Transfer { start_index, output_leaves, root } => {
            &&& shows_number(tree, seq!["start_index"], start_index)
            &&& shows_hashes(tree, seq!["output_leaves"], output_leaves)
            &&& shows_hash(tree, seq!["root"], root)
            &&& all_hashes(output_leaves)
            &&& root.len() == 32
        },
    }
}

/// The symbols name the kind of the event. Where they name several, a deposit comes
/// before a withdrawal, and that before a transfer.
pub open spec fn names_kind(symbols: Seq<Seq<char>>, event: TreeEvent) -> bool {
    match event {
        TreeEvent::Deposit { .. } => symbols.contains("deposit"@),
        TreeEvent::WithdrawChange { .. } => {
            &&& symbols.contains("withdraw"@)
            &&& !symbols.contains("deposit"@)
        },
        TreeEvent::Transfer { .. } => {
            &&& symbols.contains("transfer"@)
            &&& !symbols.contains("deposit"@)
            &&& !symbols.contains("withdraw"@)
        },
    }
}

/// The names are field names.
proof fn lemma_names()
    ensures
        are_field_names(seq!["index"]),
        are_field_names(seq!["leaf"]),
        are_field_names(seq!["root"]),
        are_field_names(seq!["index", "change_index"]),
        are_field_names(seq!["output_leaf", "change_leaf", "leaf"]),
        are_field_names(seq!["start_index"]),
        are_field_names(seq!["output_leaves"]),
{
    let all = all_names();
    assert(all[0]@ == "index"@);
    assert(all[1]@ == "change_index"@);
    assert(all[2]@ == "start_index"@);
    assert(all[3]@ == "leaf"@);
    assert(all[4]@ == "output_leaf"@);
    assert(all[5]@ == "change_leaf"@);
    assert(all[6]@ == "output_leaves"@);
    assert(all[7]@ == "root"@);
    let names: Seq<&str> = seq!["index", "change_index"];
    assert forall|i: int| 0 <= i < names.len() implies is_field_name((#[trigger] names[i])@) by {
        assert(i == 0 || i == 1);
    }
    let names: Seq<&str> = seq!["output_leaf", "change_leaf", "leaf"];
    assert forall|i: int| 0 <= i < names.len() implies is_field_name((#[trigger] names[i])@) by {
        assert(i == 0 || i == 1 || i == 2);
    }
}

proof fn lemma_number_field(tree: JsonTree, names: Seq<&str>, n: u64)
    requires
        are_field_names(names),
        shows_number(tree, names, n),
    ensures
        number_field(tree, names) == Ok::<u64, FieldFault>(n),
{
    let value = choose|value: JsonTree| #[trigger] shows(tree, names, value) && is_number(value, n);
    shown_field_is_found(tree, names, value);
    every_form_of_a_number_is_read(value, n);
}

proof fn lemma_hash_field(tree: JsonTree, names: Seq<&str>, hash: Seq<u8>)
    requires
        are_field_names(names),
        hash.len() == 32,
        shows_hash(tree, names, hash),
    ensures
        hash_field(tree, names) == Ok::<Seq<u8>, FieldFault>(hash),
{
    let value = choose|value: JsonTree| #[trigger] shows(tree, names, value) && is_hash(value, hash);
    shown_field_is_found(tree, names, value);
    lemma_hash(value, hash);
}

/// An event of any kind that JSON shows, as a contract map or as an object of its
/// fields, with its fields in any order and under any of their names, is read as it is
/// shown.
pub proof fn shown_event_is_read(symbols: Seq<Seq<char>>, tree: JsonTree, event: TreeEvent)
    requires
        names_kind(symbols, event),
        shows_event(tree, event),
    ensures
        json_event(symbols, tree) == Ok::<Option<TreeEvent>, FieldFault>(Some(event)),
{
    lemma_names();
    match event {
        TreeEvent::Deposit { index, leaf, root } => {
            lemma_number_field(tree, seq!["index"], index);
            lemma_hash_field(tree, seq!["leaf"], leaf);
            lemma_hash_field(tree, seq!["root"], root);
        },
        TreeEvent::WithdrawChange { index, leaf, root } => {
            lemma_number_field(tree, seq!["index", "change_index"], index);
            lemma_hash_field(tree, seq!["output_leaf", "change_leaf", "leaf"], leaf);
            lemma_hash_field(tree, seq!["root"], root);
        },
        TreeEvent::Transfer { start_index, output_leaves, root } => {
            lemma_number_field(tree, seq!["start_index"], start_index);
            let names: Seq<&str> = seq!["output_leaves"];
            let value = choose|value: JsonTree|
                #[trigger] shows(tree, names, value) && is_hash_list(value, output_leaves);
            shown_field_is_found(tree, names, value);
            every_form_of_a_hash_list_is_read(value, output_leaves);
            assert(hashes_field(tree, names) == Ok::<Seq<Seq<u8>>, FieldFault>(output_leaves));
            lemma_hash_field(tree, seq!["root"], root);
        },
    }
}

/// The words that are known as bare text.
pub open spec fn known_words() -> Seq<&'static str> {
    seq!["mixer", "init", "deposit", "withdraw", "transfer"]
}

/// JSON shows a topic: a symbol, or one of the known words as bare text.
pub open spec fn is_symbol_json(tree: JsonTree, word: Seq<char>) -> bool {
    is_name(tree, word) && (tree is Text ==> is_one_of(word, known_words()))
}

/// The words of topics, each the XDR of a symbol.
pub open spec fn topics_are(topics: Seq<Seq<char>>, words: Seq<Seq<char>>) -> bool {
    &&& topics.len() == words.len()
    &&& forall|i: int|
        0 <= i < topics.len() ==> (decoded_json(#[trigger] topics[i]) matches Ok(tree)
            && is_symbol_json(tree, words[i]))
}

proof fn lemma_symbol_word(tree: JsonTree, word: Seq<char>, x: Seq<char>)
    requires
        is_symbol_json(tree, word),
    ensures
        symbols_of(tree).contains(x) == (x == word),
{
    lemma_other_words();
    let all = symbols_of(tree);
    let last = if tree is Text {
        Seq::<Seq<char>>::empty()
    } else {
        symbols_of(tree->Object_0[0].1)
    };
    if tree is Text {
        assert(topic_words() =~= known_words());
        assert(all =~= seq![word] + last);
    } else {
        let members = tree->Object_0;
        if members[0].0 == "symbol"@ {
            lemma_key(members, "symbol"@, 0);
            lemma_no_key(members, "sym"@);
        } else {
            lemma_key(members, "sym"@, 0);
            lemma_no_key(members, "symbol"@);
        }
        reveal_with_fuel(symbols_of_members, 2);
        assert(members.subrange(0, 0) =~= Seq::empty());
        assert(symbols_of_members(members) =~= last);
        assert(all =~= seq![word] + last);
    }
    assert(all[0] == word);
    if all.contains(x) {
        let i = choose|i: int| 0 <= i < all.len() && all[i] == x;
        if i > 0 {
            assert(all[i] == last[i - 1]);
        }
    }
}

/// The symbols of topics are the words that the topics are.
pub proof fn topics_give_their_words(topics: Seq<Seq<char>>, words: Seq<Seq<char>>, x: Seq<char>)
    requires
        topics_are(topics, words),
    ensures
        topics_symbols(topics) matches Ok(symbols) && symbols.contains(x) == words.contains(x),
    decreases topics.len(),
{
    if topics.len() == 0 {
        assert(words =~= Seq::empty());
    } else {
        let (front, front_words) = (topics.drop_last(), words.drop_last());
        assert forall|i: int| 0 <= i < front.len() implies (decoded_json(
            #[trigger] front[i],
        ) matches Ok(tree) && is_symbol_json(tree, front_words[i])) by {
            assert(front[i] == topics[i]);
        }
        topics_give_their_words(front, front_words, x);
        let n = topics.len() - 1;
        assert(decoded_json(topics[n]) is Ok);
        let tree = decoded_json(topics.last())->Ok_0;
        lemma_symbol_word(tree, words.last(), x);
        let (a, b) = (topics_symbols(front)->Ok_0, symbols_of(tree));
        let all = a + b;
        if a.contains(x) {
            let i = choose|i: int| 0 <= i < a.len() && a[i] == x;
            assert(all[i] == x);
        }
        if b.contains(x) {
            let i = choose|i: int| 0 <= i < b.len() && b[i] == x;
            assert(all[a.len() + i] == x);
        }
        if all.contains(x) {
            let i = choose|i: int| 0 <= i < all.len() && all[i] == x;
            if i < a.len() {
                assert(a[i] == x);
            } else {
                assert(b[i - a.len()] == x);
            }
        }
        if words.contains(x) {
            let i = choose|i: int| 0 <= i < words.len() && words[i] == x;
            if i < n {
                assert(front_words[i] == x);
            }
        }
        if front_words.contains(x) {
            let i = choose|i: int| 0 <= i < front_words.len() && front_words[i] == x;
            assert(words[i] == x);
        }
        if x == words.last() {
            assert(words[n] == x);
        }
    }
}

/// A reported event whose topics are symbols that name its kind, and whose value shows
/// its fields, is read as the event that it shows.
pub proof fn reported_event_is_read(
    event: RpcEvent,
    words: Seq<Seq<char>>,
    tree: JsonTree,
    shown: TreeEvent,
    out: Result<Option<MixerTreeEvent>, RpcEventError>,
)
    requires
        topics_are(event@.topic, words),
        names_kind(words, shown),
        decoded_json(event.value@) == Ok::<JsonTree, DecodeFault>(tree),
        shows_event(tree, shown),
        call_ensures(parse_mixer_tree_event, (&event,), out),
    ensures
        out matches Ok(Some(parsed)) && parsed@ == shown,
        reported_tree_event(event@) == Ok::<Option<TreeEvent>, RpcEventFault>(Some(shown)),
{
    topics_give_their_words(event@.topic, words, "deposit"@);
    topics_give_their_words(event@.topic, words, "withdraw"@);
    topics_give_their_words(event@.topic, words, "transfer"@);
    let symbols = topics_symbols(event@.topic)->Ok_0;
    shown_event_is_read(symbols, tree, shown);
}

/// A reported event whose topics are symbols of which none names a kind is no tree event,
/// whatever its value shows.
pub proof fn other_reported_event_is_none(
    event: RpcEvent,
    words: Seq<Seq<char>>,
    tree: JsonTree,
    out: Result<Option<MixerTreeEvent>, RpcEventError>,
)
    requires
        topics_are(event@.topic, words),
        !words.contains("deposit"@),
        !words.contains("withdraw"@),
        !words.contains("transfer"@),
        decoded_json(event.value@) == Ok::<JsonTree, DecodeFault>(tree),
        call_ensures(parse_mixer_tree_event, (&event,), out),
    ensures
        out matches Ok(parsed) && parsed is None,
{
    topics_give_their_words(event@.topic, words, "deposit"@);
    topics_give_their_words(event@.topic, words, "withdraw"@);
    topics_give_their_words(event@.topic, words, "transfer"@);
}

/// A number stands somewhere in a value: as a number, or as text that writes it, bare or in
/// objects.
pub open spec fn number_within(tree: JsonTree, n: u64) -> bool
    decreases tree,
{
    match tree {
        JsonTree::Number { value, text: _ } => value == Some(n),
        JsonTree::Text(s) => writes_number(s, n as nat),
        JsonTree::Object(members, _) => exists|i: int|
            0 <= i < members.len() && number_within((#[trigger] members[i]).1, n),
        _ => false,
    }
}

/// A hash stands somewhere in a value: as text that writes it, or as the list of its 32
/// bytes, bare or in objects.
pub open spec fn hash_within(tree: JsonTree, hash: Seq<u8>) -> bool
    decreases tree,
{
    match tree {
        JsonTree::Text(s) => {
            ||| writes(TextForm::Hex, trimmed(s), hash)
            ||| writes(TextForm::PrefixedHex, trimmed(s), hash)
            ||| is_base64_of(trimmed(s), hash)
        },
        JsonTree::Array(items, _) => stands_for(JsonForm::Numbers, tree, hash),
        JsonTree::Object(members, _) => exists|i: int|
            0 <= i < members.len() && hash_within((#[trigger] members[i]).1, hash),
        _ => false,
    }
}

/// A list of hashes stands somewhere in a value, bare or in objects.
pub open spec fn hash_list_within(tree: JsonTree, list: Seq<Seq<u8>>) -> bool
    decreases tree,
{
    match tree {
        JsonTree::Array(items, _) => {
            &&& items.len() == list.len()
            &&& forall|i: int|
                0 <= i < items.len() ==> hash_within(#[trigger] items[i], list[i])
                    && list[i].len() == 32
        },
        JsonTree::Object(members, _) => exists|i: int|
            0 <= i < members.len() && hash_list_within((#[trigger] members[i]).1, list),
        _ => false,
    }
}

/// What is read as a number stands in the value.
pub proof fn read_number_stands_in_the_value(tree: JsonTree, n: u64)
    requires
        json_number(tree) == Ok::<u64, ValueError>(n),
    ensures
        number_within(tree, n),
    decreases tree,
{
    match tree {
        JsonTree::Text(s) => number_text_is_read(s, u64::MAX as nat, n as nat),
        JsonTree::Object(members, _) => {
            let at = wrapped_at(members, seq!["u64", "u32", "i64", "i32"]);
            read_number_stands_in_the_value(members[at].1, n);
        },
        _ => {},
    }
}

proof fn lemma_bytes_listed(items: Seq<JsonTree>, text: Seq<char>, bytes: Seq<u8>)
    requires
        list_bytes(items) == Ok::<Seq<u8>, ValueError>(bytes),
    ensures
        stands_for(JsonForm::Numbers, JsonTree::Array(items, text), bytes),
    decreases items.len(),
{
    if items.len() > 0 {
        let front = items.drop_last();
        let got = list_bytes(front)->Ok_0;
        lemma_bytes_listed(front, text, got);
        assert forall|i: int| 0 <= i < items.len() implies (
        #[trigger] items[i] matches JsonTree::Number { value: Some(n), .. } && n == bytes[i]) by {
            if i < front.len() {
                assert(front[i] == items[i]);
            }
        }
    }
}

/// What is read as a hash is 32 bytes that stand in the value.
pub proof fn read_hash_stands_in_the_value(tree: JsonTree, hash: Seq<u8>)
    requires
        json_hash(tree) == Ok::<Seq<u8>, ValueError>(hash),
    ensures
        hash.len() == 32,
        hash_within(tree, hash),
    decreases tree,
{
    match tree {
        JsonTree::Text(s) => hash_is_read_only_from_its_text(s, hash),
        JsonTree::Array(items, text) => lemma_bytes_listed(items, text, hash),
        JsonTree::Object(members, _) => {
            let at = wrapped_at(members, hash_keys());
            read_hash_stands_in_the_value(members[at].1, hash);
        },
        _ => {},
    }
}

proof fn lemma_hashes_listed(items: Seq<JsonTree>, list: Seq<Seq<u8>>)
    requires
        list_hashes(items) == Ok::<Seq<Seq<u8>>, ValueError>(list),
    ensures
        items.len() == list.len(),
        forall|i: int|
            0 <= i < items.len() ==> hash_within(#[trigger] items[i], list[i]) && list[i].len()
                == 32,
    decreases items.len(),
{
    if items.len() > 0 {
        let front = items.drop_last();
        let got = list_hashes(front)->Ok_0;
        lemma_hashes_listed(front, got);
        read_hash_stands_in_the_value(items.last(), list.last());
        assert forall|i: int| 0 <= i < items.len() implies hash_within(#[trigger] items[i], list[i])
            && list[i].len() == 32 by {
            if i < front.len() {
                assert(front[i] == items[i]);
            }
        }
    }
}

/// What is read as a list of hashes stands in the value, each in its place.
pub proof fn read_hashes_stand_in_the_value(tree: JsonTree, list: Seq<Seq<u8>>)
    requires
        json_hashes(tree) == Ok::<Seq<Seq<u8>>, ValueError>(list),
    ensures
        hash_list_within(tree, list),
    decreases tree,
{
    match tree {
        JsonTree::Array(items, _) => lemma_hashes_listed(items, list),
        JsonTree::Object(members, _) => {
            let at = wrapped_at(members, seq!["vec", "Vec", "values", "output_leaves"]);
            read_hashes_stand_in_the_value(members[at].1, list);
        },
        _ => {},
    }
}

/// An event is read only as one of the kind that the symbols name.
pub proof fn events_are_read_as_they_are_named(
    symbols: Seq<Seq<char>>,
    tree: JsonTree,
    event: TreeEvent,
)
    requires
        json_event(symbols, tree) == Ok::<Option<TreeEvent>, FieldFault>(Some(event)),
    ensures
        names_kind(symbols, event),
{
}

/// A value that does not mention one of the fields of the kind that the symbols name is
/// refused.
pub proof fn events_without_a_field_are_refused(symbols: Seq<Seq<char>>, tree: JsonTree)
    requires
        ({
            let (d, w, t) = (
                symbols.contains("deposit"@),
                symbols.contains("withdraw"@),
                symbols.contains("transfer"@),
            );
            ||| (d || w || t) && !mentions(tree, seq!["root"])
            ||| d && (!mentions(tree, seq!["index"]) || !mentions(tree, seq!["leaf"]))
            ||| w && !d && (!mentions(tree, seq!["index", "change_index"]) || !mentions(
                tree,
                seq!["output_leaf", "change_leaf", "leaf"],
            ))
            ||| t && !d && !w && (!mentions(tree, seq!["start_index"]) || !mentions(
                tree,
                seq!["output_leaves"],
            ))
        }),
    ensures
        json_event(symbols, tree) is Err,
{
    if !mentions(tree, seq!["root"]) {
        unmentioned_field_is_not_found(tree, seq!["root"]);
    }
    if !mentions(tree, seq!["index"]) {
        unmentioned_field_is_not_found(tree, seq!["index"]);
    }
    if !mentions(tree, seq!["leaf"]) {
        unmentioned_field_is_not_found(tree, seq!["leaf"]);
    }
    if !mentions(tree, seq!["index", "change_index"]) {
        unmentioned_field_is_not_found(tree, seq!["index", "change_index"]);
    }
    if !mentions(tree, seq!["output_leaf", "change_leaf", "leaf"]) {
        unmentioned_field_is_not_found(tree, seq!["output_leaf", "change_leaf", "leaf"]);
    }
    if !mentions(tree, seq!["start_index"]) {
        unmentioned_field_is_not_found(tree, seq!["start_index"]);
    }
    if !mentions(tree, seq!["output_leaves"]) {
        unmentioned_field_is_not_found(tree, seq!["output_leaves"]);
    }
}

/// Some text in a value, at any depth, is one of the names.
pub open spec fn text_within(tree: JsonTree, names: Seq<&str>) -> bool
    decreases tree,
{
    match tree {
        JsonTree::Text(s) => is_one_of(s, names),
        JsonTree::Array(items, _) => exists|i: int|
            0 <= i < items.len() && text_within(#[trigger] items[i], names),
        JsonTree::Object(members, _) => exists|i: int|
            0 <= i < members.len() && text_within((#[trigger] members[i]).1, names),
        _ => false,
    }
}

/// A value stands for one of the names if and only if some text in it, at any depth, is one.
pub proof fn values_stand_for_their_texts(tree: JsonTree, names: Seq<&str>)
    ensures
        names_value(tree, names) <==> text_within(tree, names),
    decreases tree,
{
    match tree {
        JsonTree::Array(items, _) => {
            assert forall|i: int| 0 <= i < items.len() implies names_value(
                #[trigger] items[i],
                names,
            ) == text_within(items[i], names) by {
                values_stand_for_their_texts(items[i], names);
            }
        },
        JsonTree::Object(members, _) => {
            assert forall|i: int| 0 <= i < members.len() implies names_value(
                (#[trigger] members[i]).1,
                names,
            ) == text_within(members[i].1, names) by {
                values_stand_for_their_texts(members[i].1, names);
            }
            lemma_symbol_is_text(members, "symbol"@, names);
            lemma_symbol_is_text(members, "sym"@, names);
        },
        _ => {},
    }
}

proof fn lemma_symbol_is_text(members: Seq<(Seq<char>, JsonTree)>, key: Seq<char>, names: Seq<&str>)
    ensures
        symbol_is_one_of(members, key, names) ==> exists|i: int|
            0 <= i < members.len() && text_within((#[trigger] members[i]).1, names),
{
    if symbol_is_one_of(members, key, names) {
        let at = key_at(members, key);
        assert(text_within(members[at].1, names));
    }
}

/// A word is shown in a value: as bare text that is a known word, as the symbol of an object,
/// or in an item or a member.
pub open spec fn word_within(tree: JsonTree, word: Seq<char>) -> bool
    decreases tree,
{
    match tree {
        JsonTree::Text(s) => s == word && is_one_of(word, known_words()),
        JsonTree::Array(items, _) => exists|i: int|
            0 <= i < items.len() && word_within(#[trigger] items[i], word),
        JsonTree::Object(members, _) => {
            ||| exists|i: int| #[trigger] is_symbol_member(members, "symbol"@, word, i)
            ||| exists|i: int| #[trigger] is_symbol_member(members, "sym"@, word, i)
            ||| exists|i: int|
                0 <= i < members.len() && word_within((#[trigger] members[i]).1, word)
        },
        _ => false,
    }
}

/// Member `i` is the first called `key`, and it is a word.
pub open spec fn is_symbol_member(
    members: Seq<(Seq<char>, JsonTree)>,
    key: Seq<char>,
    word: Seq<char>,
    i: int,
) -> bool {
    &&& 0 <= i < members.len()
    &&& members[i].0 == key
    &&& members[i].1 == JsonTree::Text(word)
    &&& forall|k: int| 0 <= k < i ==> (#[trigger] members[k]).0 != key
}

proof fn lemma_at_key(members: Seq<(Seq<char>, JsonTree)>, key: Seq<char>)
    ensures
        0 <= key_at(members, key) <= members.len(),
        key_at(members, key) < members.len() ==> members[key_at(members, key)].0 == key,
        forall|k: int| 0 <= k < key_at(members, key) ==> (#[trigger] members[k]).0 != key,
    decreases members.len(),
{
    if members.len() > 0 && members[0].0 != key {
        let rest = members.subrange(1, members.len() as int);
        lemma_at_key(rest, key);
        assert forall|k: int| 0 <= k < key_at(members, key) implies (#[trigger] members[k]).0
            != key by {
            if k > 0 {
                assert(rest[k - 1] == members[k]);
            }
        }
    }
}

proof fn lemma_symbol_member(members: Seq<(Seq<char>, JsonTree)>, key: Seq<char>, word: Seq<char>)
    ensures
        found_symbol(symbol_at(members, key)).contains(word) <==> exists|i: int|
            #[trigger] is_symbol_member(members, key, word, i),
{
    lemma_at_key(members, key);
    let at = key_at(members, key);
    let found = found_symbol(symbol_at(members, key));
    if found.contains(word) {
        assert(is_symbol_member(members, key, word, at));
    }
    if exists|i: int| #[trigger] is_symbol_member(members, key, word, i) {
        let i = choose|i: int| #[trigger] is_symbol_member(members, key, word, i);
        lemma_key(members, key, i);
        assert(found[0] == word);
    }
}

/// The symbols of a topic are exactly the words that it shows, at any depth.
pub proof fn symbols_are_the_words_shown(tree: JsonTree, word: Seq<char>)
    ensures
        symbols_of(tree).contains(word) <==> word_within(tree, word),
    decreases tree, 1nat,
{
    match tree {
        JsonTree::Text(s) => {
            assert(topic_words() =~= known_words());
            if s == word && is_one_of(word, known_words()) {
                assert(symbols_of(tree)[0] == word);
            }
        },
        JsonTree::Array(items, _) => {
            lemma_words_in_items(items, word);
            assert(symbols_of(tree) == symbols_of_items(items));
        },
        JsonTree::Object(members, _) => {
            lemma_symbol_member(members, "symbol"@, word);
            lemma_symbol_member(members, "sym"@, word);
            lemma_words_in_members(members, word);
            let (a, b, c) = (
                found_symbol(symbol_at(members, "symbol"@)),
                found_symbol(symbol_at(members, "sym"@)),
                symbols_of_members(members),
            );
            lemma_contains(a, b, word);
            lemma_contains(a + b, c, word);
            assert(symbols_of(tree) == a + b + c);
        },
        _ => {},
    }
}

proof fn lemma_contains(a: Seq<Seq<char>>, b: Seq<Seq<char>>, x: Seq<char>)
    ensures
        (a + b).contains(x) <==> a.contains(x) || b.contains(x),
{
    let all = a + b;
    if a.contains(x) {
        let i = choose|i: int| 0 <= i < a.len() && a[i] == x;
        assert(all[i] == x);
    }
    if b.contains(x) {
        let i = choose|i: int| 0 <= i < b.len() && b[i] == x;
        assert(all[a.len() + i] == x);
    }
    if all.contains(x) {
        let i = choose|i: int| 0 <= i < all.len() && all[i] == x;
        if i < a.len() {
            assert(a[i] == x);
        } else {
            assert(b[i - a.len()] == x);
        }
    }
}

proof fn lemma_words_in_items(items: Seq<JsonTree>, word: Seq<char>)
    ensures
        symbols_of_items(items).contains(word) <==> exists|i: int|
            0 <= i < items.len() && word_within(#[trigger] items[i], word),
    decreases items, 0nat,
{
    if items.len() > 0 {
        let n = items.len() - 1;
        let front = items.subrange(0, n);
        lemma_words_in_items(front, word);
        symbols_are_the_words_shown(items[n], word);
        lemma_contains(symbols_of_items(front), symbols_of(items[n]), word);
        if exists|i: int| 0 <= i < front.len() && word_within(#[trigger] front[i], word) {
            let i = choose|i: int| 0 <= i < front.len() && word_within(#[trigger] front[i], word);
            assert(word_within(items[i], word));
        }
        if exists|i: int| 0 <= i < items.len() && word_within(#[trigger] items[i], word) {
            let i = choose|i: int| 0 <= i < items.len() && word_within(#[trigger] items[i], word);
            if i < n {
                assert(word_within(front[i], word));
            }
        }
    }
}

proof fn lemma_words_in_members(members: Seq<(Seq<char>, JsonTree)>, word: Seq<char>)
    ensures
        symbols_of_members(members).contains(word) <==> exists|i: int|
            0 <= i < members.len() && word_within((#[trigger] members[i]).1, word),
    decreases members, 0nat,
{
    if members.len() > 0 {
        let n = members.len() - 1;
        let front = members.subrange(0, n);
        lemma_words_in_members(front, word);
        symbols_are_the_words_shown(members[n].1, word);
        lemma_contains(symbols_of_members(front), symbols_of(members[n].1), word);
        if exists|i: int| 0 <= i < front.len() && word_within((#[trigger] front[i]).1, word) {
            let i = choose|i: int|
                0 <= i < front.len() && word_within((#[trigger] front[i]).1, word);
            assert(word_within(members[i].1, word));
        }
        if exists|i: int| 0 <= i < members.len() && word_within((#[trigger] members[i]).1, word) {
            let i = choose|i: int|
                0 <= i < members.len() && word_within((#[trigger] members[i]).1, word);
            if i < n {
                assert(word_within(front[i].1, word));
            }
        }
    }
}

} // verus!
