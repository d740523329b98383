//! Events read from the JSON form of contract values.
use vstd::prelude::*;
use vstd::string::*;

use crate::encoding::{hash_string_value, parse_hash_string, TreeHash};
use crate::events::{
    deposit_of, event_outcome, hash_outcome, hashes, hashes_outcome, invalid_json,
    invalid_json_error, missing, missing_error, number_outcome, transfer_of, withdraw_of,
    FieldError, FieldFault, FieldKind, MixerTreeEvent, TreeEvent, ValueError,
};
use crate::json::{
    first_key_at, first_position_of, is_one_of, item_trees, key_at, lemma_key_at_range, matches_one_of,
    member_trees, position_of, wrapped_at, wrapped_position, Json, JsonTree,
};
use crate::text::{parse_number, parsed_number, same_text};

verus! {

/// A value that stands for one of `names`: a string that is one, or a value that
/// holds such a string, marked as a symbol or not, at any depth.
pub open spec fn names_value(tree: JsonTree, names: Seq<&str>) -> bool
    decreases tree,
{
    match tree {
        JsonTree::Text(s) => is_one_of(s, names),
        JsonTree::Object(members, _) => {
            ||| symbol_is_one_of(members, "symbol"@, names)
            ||| symbol_is_one_of(members, "sym"@, names)
            ||| exists|i: int|
                0 <= i < members.len() && names_value((#[trigger] members[i]).1, names)
        },
        JsonTree::Array(items, _) => exists|i: int|
            0 <= i < items.len() && names_value(#[trigger] items[i], names),
        _ => false,
    }
}

/// The member called `key` is a string that is one of `names`.
pub open spec fn symbol_is_one_of(
    members: Seq<(Seq<char>, JsonTree)>,
    key: Seq<char>,
    names: Seq<&str>,
) -> bool {
    match symbol_at(members, key) {
        Some(s) => is_one_of(s, names),
        None => false,
    }
}

/// The string that the member called `key` is.
pub open spec fn symbol_at(members: Seq<(Seq<char>, JsonTree)>, key: Seq<char>) -> Option<
    Seq<char>,
> {
    if 0 <= key_at(members, key) < members.len() {
        match members[key_at(members, key)].1 {
            JsonTree::Text(s) => Some(s),
            _ => None,
        }
    } else {
        None
    }
}

/// The value beside a key that stands for one of `names`, in an object that is a
/// map entry.
pub open spec fn keyed_value(members: Seq<(Seq<char>, JsonTree)>, names: Seq<&str>) -> Option<
    JsonTree,
> {
    let key = key_at(members, "key"@);
    let val = key_at(members, "val"@);
    let value = key_at(members, "value"@);
    if key < members.len() && names_value(members[key].1, names) {
        if val < members.len() {
            Some(members[val].1)
        } else if value < members.len() {
            Some(members[value].1)
        } else {
            None
        }
    } else {
        None
    }
}

/// The value of the field called by one of `names`. An object is asked for a
/// member of such a name, then taken as a map entry; then its members are
/// searched in order, as the items of an array are.
pub open spec fn named_value(tree: JsonTree, names: Seq<&str>) -> Option<JsonTree>
    decreases tree,
{
    match tree {
        JsonTree::Object(members, _) => {
            let at = first_key_at(members, names);
            if at < members.len() {
                Some(members[at].1)
            } else if keyed_value(members, names) is Some {
                keyed_value(members, names)
            } else {
                named_in_members(members, names)
            }
        },
        JsonTree::Array(items, _) => named_in_items(items, names),
        _ => None,
    }
}

/// What the first of the members that holds the field holds for it.
pub open spec fn named_in_members(members: Seq<(Seq<char>, JsonTree)>, names: Seq<&str>) -> Option<
    JsonTree,
>
    decreases members,
{
    if members.len() == 0 {
        None
    } else if named_value(members[0].1, names) is Some {
        named_value(members[0].1, names)
    } else {
        named_in_members(members.subrange(1, members.len() as int), names)
    }
}

/// What the first of the items that holds the field holds for it.
pub open spec fn named_in_items(items: Seq<JsonTree>, names: Seq<&str>) -> Option<JsonTree>
    decreases items,
{
    if items.len() == 0 {
        None
    } else if named_value(items[0], names) is Some {
        named_value(items[0], names)
    } else {
        named_in_items(items.subrange(1, items.len() as int), names)
    }
}

/// Whether a value stands for one of `names`.
pub fn value_matches_name(value: &Json, names: &[&str]) -> (found: bool)
    ensures
        found == names_value(value.tree(), names@),
    decreases value,
{
    match value {
        Json::Text(s) => matches_one_of(s.as_str(), names),
        Json::Object(members, text) => {
            let ghost all = value.tree()->Object_0;
            assert(all =~= member_trees(members@));
            if symbol_matches(members, "symbol", names) || symbol_matches(members, "sym", names) {
                return true;
            }
            let mut i: usize = 0;
            while i < members.len()
                invariant
                    *value == Json::Object(*members, *text),
                    all == value.tree()->Object_0,
                    i <= members@.len(),
                    forall|k: int|
                        0 <= k < i ==> !names_value((#[trigger] all[k]).1, names@),
                decreases members@.len() - i,
            {
                assert(all[i as int].1 == members@[i as int].1.tree());
                if value_matches_name(&members[i].1, names) {
                    return true;
                }
                i = i + 1;
            }
            false
        },
        Json::Array(items, text) => {
            let ghost all = value.tree()->Array_0;
            let mut i: usize = 0;
            while i < items.len()
                invariant
                    *value == Json::Array(*items, *text),
                    all == value.tree()->Array_0,
                    i <= items@.len(),
                    forall|k: int| 0 <= k < i ==> !names_value(#[trigger] all[k], names@),
                decreases items@.len() - i,
            {
                assert(all[i as int] == items@[i as int].tree());
                if value_matches_name(&items[i], names) {
                    return true;
                }
                i = i + 1;
            }
            false
        },
        _ => false,
    }
}

/// Whether the member called `key` is a string that is one of `names`.
fn symbol_matches(members: &Vec<(String, Json)>, key: &str, names: &[&str]) -> (found: bool)
    ensures
        found == symbol_is_one_of(member_trees(members@), key@, names@),
{
    let at = position_of(members, key);
    if at < members.len() {
        assert(member_trees(members@)[at as int].1 == members@[at as int].1.tree());
        match &members[at].1 {
            Json::Text(s) => matches_one_of(s.as_str(), names),
            _ => false,
        }
    } else {
        false
    }
}

/// The value of the field called by one of `names`.
pub fn find_named_value<'a>(value: &'a Json, names: &[&str]) -> (out: Option<&'a Json>)
    ensures
        match out {
            Some(found) => named_value(value.tree(), names@) == Some(found.tree()),
            None => named_value(value.tree(), names@) is None,
        },
    decreases value,
{
    match value {
        Json::Object(members, text) => {
            let ghost all = value.tree()->Object_0;
            assert(all =~= member_trees(members@));
            let at = first_position_of(members, names);
            if at < members.len() {
                return Some(&members[at].1);
            }
            proof {
                lemma_key_at_range(all, "key"@);
                lemma_key_at_range(all, "val"@);
                lemma_key_at_range(all, "value"@);
            }
            let key = position_of(members, "key");
            if key < members.len() && value_matches_name(&members[key].1, names) {
                let val = position_of(members, "val");
                if val < members.len() {
                    return Some(&members[val].1);
                }
                let val = position_of(members, "value");
                if val < members.len() {
                    return Some(&members[val].1);
                }
            }
            let n: usize = members.len();
            let mut i: usize = 0;
            assert(all.subrange(0, n as int) =~= all);
            while i < n
                invariant
                    *value == Json::Object(*members, *text),
                    all == value.tree()->Object_0,
                    n == members@.len(),
                    i <= n,
                    named_value(value.tree(), names@) == named_in_members(
                        all.subrange(i as int, n as int),
                        names@,
                    ),
                decreases n - i,
            {
                let ghost rest = all.subrange(i as int, n as int);
                assert(rest[0].1 == members@[i as int].1.tree());
                assert(rest.subrange(1, rest.len() as int) =~= all.subrange(i + 1, n as int));
                match find_named_value(&members[i].1, names) {
                    Some(found) => {
                        return Some(found);
                    },
                    None => {},
                }
                i = i + 1;
            }
            None
        },
        Json::Array(items, text) => {
            let ghost all = value.tree()->Array_0;
            let n: usize = items.len();
            let mut i: usize = 0;
            assert(all.subrange(0, n as int) =~= all);
            while i < n
                invariant
                    *value == Json::Array(*items, *text),
                    all == value.tree()->Array_0,
                    n == items@.len(),
                    i <= n,
                    named_value(value.tree(), names@) == named_in_items(
                        all.subrange(i as int, n as int),
                        names@,
                    ),
                decreases n - i,
            {
                let ghost rest = all.subrange(i as int, n as int);
                assert(rest[0] == items@[i as int].tree());
                assert(rest.subrange(1, rest.len() as int) =~= all.subrange(i + 1, n as int));
                match find_named_value(&items[i], names) {
                    Some(found) => {
                        return Some(found);
                    },
                    None => {},
                }
                i = i + 1;
            }
            None
        },
        _ => None,
    }
}

/// The number that a value stands for: a number or a string that writes one,
/// bare or wrapped in objects.
pub open spec fn json_number(tree: JsonTree) -> Result<u64, ValueError>
    decreases tree,
{
    match tree {
        JsonTree::Number { value: Some(n), text: _ } => Ok(n),
        JsonTree::Text(s) => match parsed_number(s, u64::MAX as nat) {
            Ok(n) => Ok(n as u64),
            Err(error) => Err(ValueError::NumberText(error)),
        },
        JsonTree::Object(members, _) => {
            let at = wrapped_at(members, seq!["u64", "u32", "i64", "i32"]);
            if 0 <= at < members.len() {
                json_number(members[at].1)
            } else {
                Err(ValueError::NotU64Json)
            }
        },
        _ => Err(ValueError::NotU64Json),
    }
}

/// The byte that an item of a list stands for.
pub open spec fn item_byte(tree: JsonTree) -> Result<u8, ValueError> {
    match tree {
        JsonTree::Number { value: Some(n), text: _ } => if n <= 255 {
            Ok(n as u8)
        } else {
            Err(ValueError::ByteOutOfRange)
        },
        _ => Err(ValueError::ByteNotNumber),
    }
}

/// The bytes that a list stands for; the error is that of the first item that is
/// none.
pub open spec fn list_bytes(items: Seq<JsonTree>) -> Result<Seq<u8>, ValueError>
    decreases items.len(),
{
    if items.len() == 0 {
        Ok(Seq::empty())
    } else {
        match (list_bytes(items.drop_last()), item_byte(items.last())) {
            (Err(error), _) => Err(error),
            (_, Err(error)) => Err(error),
            (Ok(bytes), Ok(byte)) => Ok(bytes.push(byte)),
        }
    }
}

/// What the members that wrap a hash are called.
pub open spec fn hash_keys() -> Seq<&'static str> {
    seq!["bytes", "bytesN", "bytesn", "bytesN32", "BytesN", "hash"]
}

/// The hash that a value stands for: a string or 32 bytes, bare or wrapped in
/// objects.
pub open spec fn json_hash(tree: JsonTree) -> Result<Seq<u8>, ValueError>
    decreases tree,
{
    match tree {
        JsonTree::Text(s) => match hash_string_value(s) {
            Ok(hash) => Ok(hash),
            Err(error) => Err(ValueError::HashText(error)),
        },
        JsonTree::Array(items, _) => if items.len() == 32 {
            list_bytes(items)
        } else {
            Err(ValueError::NotHashJson)
        },
        JsonTree::Object(members, _) => {
            let at = wrapped_at(members, hash_keys());
            if 0 <= at < members.len() {
                json_hash(members[at].1)
            } else {
                Err(ValueError::NotHashJson)
            }
        },
        _ => Err(ValueError::NotHashJson),
    }
}

/// The hashes that the items of a list stand for; the error is that of the first
/// item that is none.
pub open spec fn list_hashes(items: Seq<JsonTree>) -> Result<Seq<Seq<u8>>, ValueError>
    decreases items.len(),
{
    if items.len() == 0 {
        Ok(Seq::empty())
    } else {
        match (list_hashes(items.drop_last()), json_hash(items.last())) {
            (Err(error), _) => Err(error),
            (_, Err(error)) => Err(error),
            (Ok(list), Ok(hash)) => Ok(list.push(hash)),
        }
    }
}

/// The list of hashes that a value stands for, bare or wrapped in objects.
pub open spec fn json_hashes(tree: JsonTree) -> Result<Seq<Seq<u8>>, ValueError>
    decreases tree,
{
    match tree {
        JsonTree::Array(items, _) => list_hashes(items),
        JsonTree::Object(members, _) => {
            let at = wrapped_at(members, seq!["vec", "Vec", "values", "output_leaves"]);
            if 0 <= at < members.len() {
                json_hashes(members[at].1)
            } else {
                Err(ValueError::NotHashVecObject)
            }
        },
        _ => Err(ValueError::NotHashVecJson),
    }
}

/// The number that a value stands for.
pub fn json_to_u64(value: &Json) -> (out: Result<u64, ValueError>)
    ensures
        out == json_number(value.tree()),
    decreases value,
{
    match value {
        Json::Number { value: Some(n), text: _ } => Ok(*n),
        Json::Text(s) => match parse_number(s.as_str(), u64::MAX) {
            Ok(n) => Ok(n),
            Err(error) => Err(ValueError::NumberText(error)),
        },
        Json::Object(members, _) => {
            let keys = ["u64", "u32", "i64", "i32"];
            assert(keys@ =~= seq!["u64", "u32", "i64", "i32"]);
            assert(value.tree()->Object_0 =~= member_trees(members@));
            let at = wrapped_position(members, keys.as_slice());
            if at < members.len() {
                assert(value.tree()->Object_0[at as int].1 == members@[at as int].1.tree());
                json_to_u64(&members[at].1)
            } else {
                Err(ValueError::NotU64Json)
            }
        },
        _ => Err(ValueError::NotU64Json),
    }
}

/// A list fails as its first failing front does.
proof fn lemma_bytes_fail(items: Seq<JsonTree>, i: int)
    requires
        0 <= i <= items.len(),
        list_bytes(items.subrange(0, i)) is Err,
    ensures
        list_bytes(items) == list_bytes(items.subrange(0, i)),
    decreases items.len(),
{
    if i == items.len() {
        assert(items.subrange(0, i) =~= items);
    } else {
        assert(items.drop_last().subrange(0, i) =~= items.subrange(0, i));
        lemma_bytes_fail(items.drop_last(), i);
    }
}

/// A list fails as its first failing front does.
proof fn lemma_hashes_fail(items: Seq<JsonTree>, i: int)
    requires
        0 <= i <= items.len(),
        list_hashes(items.subrange(0, i)) is Err,
    ensures
        list_hashes(items) == list_hashes(items.subrange(0, i)),
    decreases items.len(),
{
    if i == items.len() {
        assert(items.subrange(0, i) =~= items);
    } else {
        assert(items.drop_last().subrange(0, i) =~= items.subrange(0, i));
        lemma_hashes_fail(items.drop_last(), i);
    }
}

/// The byte that an item of a list stands for.
fn read_byte(item: &Json) -> (out: Result<u8, ValueError>)
    ensures
        out == item_byte(item.tree()),
{
    match item {
        Json::Number { value: Some(n), text: _ } => if *n <= 255 {
            Ok(*n as u8)
        } else {
            Err(ValueError::ByteOutOfRange)
        },
        _ => Err(ValueError::ByteNotNumber),
    }
}

/// The 32 bytes that the items of a list stand for.
fn read_byte_list(items: &Vec<Json>) -> (out: Result<TreeHash, ValueError>)
    requires
        items@.len() == 32,
    ensures
        match out {
            Ok(hash) => list_bytes(item_trees(items@)) == Ok::<Seq<u8>, ValueError>(hash@),
            Err(error) => list_bytes(item_trees(items@)) == Err::<Seq<u8>, ValueError>(error),
        },
{
    let ghost all = item_trees(items@);
    let mut out: TreeHash = [0u8; 32];
    let mut i: usize = 0;
    assert(out@.subrange(0, 0) =~= Seq::<u8>::empty());
    while i < 32
        invariant
            items@.len() == 32,
            all == item_trees(items@),
            i <= 32,
            list_bytes(all.subrange(0, i as int)) == Ok::<Seq<u8>, ValueError>(out@.subrange(0, i as int)),
        decreases 32 - i,
    {
        let ghost next = all.subrange(0, i + 1);
        assert(next.drop_last() =~= all.subrange(0, i as int));
        assert(next.last() == items@[i as int].tree());
        match read_byte(&items[i]) {
            Ok(byte) => {
                let ghost before = out@.subrange(0, i as int);
                out[i] = byte;
                assert(out@.subrange(0, i + 1) =~= before.push(byte));
            },
            Err(error) => {
                proof {
                    lemma_bytes_fail(all, i + 1);
                }
                return Err(error);
            },
        }
        i = i + 1;
    }
    assert(all.subrange(0, 32) =~= all);
    assert(out@.subrange(0, 32) =~= out@);
    Ok(out)
}

/// The hash that a value stands for.
pub fn json_to_hash(value: &Json) -> (out: Result<TreeHash, ValueError>)
    ensures
        match out {
            Ok(hash) => json_hash(value.tree()) == Ok::<Seq<u8>, ValueError>(hash@),
            Err(error) => json_hash(value.tree()) == Err::<Seq<u8>, ValueError>(error),
        },
    decreases value,
{
    match value {
        Json::Text(s) => match parse_hash_string(s.as_str()) {
            Ok(hash) => Ok(hash),
            Err(error) => Err(ValueError::HashText(error)),
        },
        Json::Array(items, _) => if items.len() == 32 {
            assert(value.tree()->Array_0 =~= item_trees(items@));
            read_byte_list(items)
        } else {
            Err(ValueError::NotHashJson)
        },
        Json::Object(members, _) => {
            let keys = ["bytes", "bytesN", "bytesn", "bytesN32", "BytesN", "hash"];
            assert(keys@ =~= hash_keys());
            assert(value.tree()->Object_0 =~= member_trees(members@));
            let at = wrapped_position(members, keys.as_slice());
            if at < members.len() {
                assert(value.tree()->Object_0[at as int].1 == members@[at as int].1.tree());
                json_to_hash(&members[at].1)
            } else {
                Err(ValueError::NotHashJson)
            }
        },
        _ => Err(ValueError::NotHashJson),
    }
}

/// The list of hashes that a value stands for.
pub fn json_to_hash_vec(value: &Json) -> (out: Result<Vec<TreeHash>, ValueError>)
    ensures
        match out {
            Ok(list) => json_hashes(value.tree()) == Ok::<Seq<Seq<u8>>, ValueError>(hashes(list@)),
            Err(error) => json_hashes(value.tree()) == Err::<Seq<Seq<u8>>, ValueError>(error),
        },
    decreases value,
{
    match value {
        Json::Array(items, text) => {
            let ghost all = value.tree()->Array_0;
            let mut out: Vec<TreeHash> = Vec::new();
            let mut i: usize = 0;
            assert(hashes(out@) =~= Seq::<Seq<u8>>::empty());
            while i < items.len()
                invariant
                    *value == Json::Array(*items, *text),
                    all == value.tree()->Array_0,
                    i <= items@.len(),
                    list_hashes(all.subrange(0, i as int)) == Ok::<Seq<Seq<u8>>, ValueError>(hashes(out@)),
                decreases items@.len() - i,
            {
                let ghost next = all.subrange(0, i + 1);
                assert(next.drop_last() =~= all.subrange(0, i as int));
                assert(next.last() == items@[i as int].tree());
                match json_to_hash(&items[i]) {
                    Ok(hash) => {
                        let ghost before = hashes(out@);
                        out.push(hash);
                        assert(hashes(out@) =~= before.push(hash@));
                    },
                    Err(error) => {
                        proof {
                            lemma_hashes_fail(all, i + 1);
                        }
                        return Err(error);
                    },
                }
                i = i + 1;
            }
            assert(all.subrange(0, all.len() as int) =~= all);
            Ok(out)
        },
        Json::Object(members, _) => {
            let keys = ["vec", "Vec", "values", "output_leaves"];
            assert(keys@ =~= seq!["vec", "Vec", "values", "output_leaves"]);
            assert(value.tree()->Object_0 =~= member_trees(members@));
            let at = wrapped_position(members, keys.as_slice());
            if at < members.len() {
                assert(value.tree()->Object_0[at as int].1 == members@[at as int].1.tree());
                json_to_hash_vec(&members[at].1)
            } else {
                Err(ValueError::NotHashVecObject)
            }
        },
        _ => Err(ValueError::NotHashVecJson),
    }
}

/// The number in the field called by one of `names`.
pub open spec fn number_field(tree: JsonTree, names: Seq<&str>) -> Result<u64, FieldFault> {
    match named_value(tree, names) {
        Some(found) => match json_number(found) {
            Ok(n) => Ok(n),
            Err(why) => Err(invalid_json(FieldKind::U64, names, found, why)),
        },
        None => Err(missing(FieldKind::U64, names)),
    }
}

/// The hash in the field called by one of `names`.
pub open spec fn hash_field(tree: JsonTree, names: Seq<&str>) -> Result<Seq<u8>, FieldFault> {
    match named_value(tree, names) {
        Some(found) => match json_hash(found) {
            Ok(hash) => Ok(hash),
            Err(why) => Err(invalid_json(FieldKind::Hash, names, found, why)),
        },
        None => Err(missing(FieldKind::Hash, names)),
    }
}

/// The hashes in the field called by one of `names`.
pub open spec fn hashes_field(tree: JsonTree, names: Seq<&str>) -> Result<
    Seq<Seq<u8>>,
    FieldFault,
> {
    match named_value(tree, names) {
        Some(found) => match json_hashes(found) {
            Ok(list) => Ok(list),
            Err(why) => Err(invalid_json(FieldKind::HashVec, names, found, why)),
        },
        None => Err(missing(FieldKind::HashVec, names)),
    }
}

/// The event that a value holds, as the symbols of its topics tell: a deposit,
/// else the change of a withdrawal, else a transfer. Others are no tree events.
pub open spec fn json_event(symbols: Seq<Seq<char>>, tree: JsonTree) -> Result<
    Option<TreeEvent>,
    FieldFault,
> {
    if symbols.contains("deposit"@) {
        deposit_of(
            number_field(tree, seq!["index"]),
            hash_field(tree, seq!["leaf"]),
            hash_field(tree, seq!["root"]),
        )
    } else if symbols.contains("withdraw"@) {
        withdraw_of(
            number_field(tree, seq!["index", "change_index"]),
            hash_field(tree, seq!["output_leaf", "change_leaf", "leaf"]),
            hash_field(tree, seq!["root"]),
        )
    } else if symbols.contains("transfer"@) {
        transfer_of(
            number_field(tree, seq!["start_index"]),
            hashes_field(tree, seq!["output_leaves"]),
            hash_field(tree, seq!["root"]),
        )
    } else {
        Ok(None)
    }
}

/// The words that are kept wherever they stand in a topic.
pub open spec fn topic_words() -> Seq<&'static str> {
    seq!["mixer", "init", "deposit", "withdraw", "transfer"]
}

/// A string that was found, or nothing.
pub open spec fn found_symbol(found: Option<Seq<char>>) -> Seq<Seq<char>> {
    match found {
        Some(s) => seq![s],
        None => Seq::empty(),
    }
}

/// The symbols in a topic, in the order in which it is walked: the strings that
/// are topic words, and before the members of an object the strings that it marks
/// as symbols.
pub open spec fn symbols_of(tree: JsonTree) -> Seq<Seq<char>>
    decreases tree,
{
    match tree {
        JsonTree::Text(s) => if is_one_of(s, topic_words()) {
            seq![s]
        } else {
            Seq::empty()
        },
        JsonTree::Array(items, _) => symbols_of_items(items),
        JsonTree::Object(members, _) => found_symbol(symbol_at(members, "symbol"@)) + found_symbol(
            symbol_at(members, "sym"@),
        ) + symbols_of_members(members),
        _ => Seq::empty(),
    }
}

/// The symbols in the items of an array.
pub open spec fn symbols_of_items(items: Seq<JsonTree>) -> Seq<Seq<char>>
    decreases items,
{
    if items.len() == 0 {
        Seq::empty()
    } else {
        symbols_of_items(items.subrange(0, items.len() - 1)) + symbols_of(items[items.len() - 1])
    }
}

/// The symbols in the members of an object.
pub open spec fn symbols_of_members(members: Seq<(Seq<char>, JsonTree)>) -> Seq<Seq<char>>
    decreases members,
{
    if members.len() == 0 {
        Seq::empty()
    } else {
        symbols_of_members(members.subrange(0, members.len() - 1)) + symbols_of(
            members[members.len() - 1].1,
        )
    }
}

/// Strings as character sequences.
pub open spec fn texts(list: Seq<String>) -> Seq<Seq<char>> {
    list.map_values(|s: String| s@)
}

/// The number in the field called by one of `names`.
pub fn named_u64(value: &Json, names: &[&str]) -> (out: Result<u64, FieldError>)
    ensures
        number_outcome(out) == number_field(value.tree(), names@),
{
    match find_named_value(value, names) {
        Some(found) => match json_to_u64(found) {
            Ok(n) => Ok(n),
            Err(why) => Err(invalid_json_error(FieldKind::U64, names, found, why)),
        },
        None => Err(missing_error(FieldKind::U64, names)),
    }
}

/// The hash in the field called by one of `names`.
pub fn named_hash(value: &Json, names: &[&str]) -> (out: Result<TreeHash, FieldError>)
    ensures
        hash_outcome(out) == hash_field(value.tree(), names@),
{
    match find_named_value(value, names) {
        Some(found) => match json_to_hash(found) {
            Ok(hash) => Ok(hash),
            Err(why) => Err(invalid_json_error(FieldKind::Hash, names, found, why)),
        },
        None => Err(missing_error(FieldKind::Hash, names)),
    }
}

/// The hashes in the field called by one of `names`.
pub fn named_hash_vec(value: &Json, names: &[&str]) -> (out: Result<Vec<TreeHash>, FieldError>)
    ensures
        hashes_outcome(out) == hashes_field(value.tree(), names@),
{
    match find_named_value(value, names) {
        Some(found) => match json_to_hash_vec(found) {
            Ok(list) => Ok(list),
            Err(why) => Err(invalid_json_error(FieldKind::HashVec, names, found, why)),
        },
        None => Err(missing_error(FieldKind::HashVec, names)),
    }
}

/// Whether `word` is among the symbols.
fn contains_symbol(symbols: &[String], word: &str) -> (found: bool)
    ensures
        found == texts(symbols@).contains(word@),
{
    let mut i: usize = 0;
    while i < symbols.len()
        invariant
            i <= symbols@.len(),
            forall|k: int| 0 <= k < i ==> (#[trigger] symbols@[k])@ != word@,
        decreases symbols@.len() - i,
    {
        if same_text(symbols[i].as_str(), word) {
            assert(texts(symbols@)[i as int] == word@);
            return true;
        }
        i = i + 1;
    }
    assert forall|k: int| 0 <= k < symbols@.len() implies texts(symbols@)[k] != word@ by {
        assert(symbols@[k]@ != word@);
    }
    false
}

/// The event that a value holds, as the symbols of its topics tell.
pub fn parse_mixer_tree_event_from_xdr_json(symbols: &[String], value: &Json) -> (out: Result<
    Option<MixerTreeEvent>,
    FieldError,
>)
    ensures
        event_outcome(out) == json_event(texts(symbols@), value.tree()),
{
    let index_name = ["index"];
    let leaf_name = ["leaf"];
    let root_name = ["root"];
    let change_index_names = ["index", "change_index"];
    let change_leaf_names = ["output_leaf", "change_leaf", "leaf"];
    let start_index_name = ["start_index"];
    let output_leaves_name = ["output_leaves"];
    proof {
        assert(index_name@ =~= seq!["index"]);
        assert(leaf_name@ =~= seq!["leaf"]);
        assert(root_name@ =~= seq!["root"]);
        assert(change_index_names@ =~= seq!["index", "change_index"]);
        assert(change_leaf_names@ =~= seq!["output_leaf", "change_leaf", "leaf"]);
        assert(start_index_name@ =~= seq!["start_index"]);
        assert(output_leaves_name@ =~= seq!["output_leaves"]);
    }
    if contains_symbol(symbols, "deposit") {
        let index = named_u64(value, index_name.as_slice())?;
        let leaf = named_hash(value, leaf_name.as_slice())?;
        let root = named_hash(value, root_name.as_slice())?;
        return Ok(Some(MixerTreeEvent::Deposit { index, leaf, root }));
    }
    if contains_symbol(symbols, "withdraw") {
        let index = named_u64(value, change_index_names.as_slice())?;
        let leaf = named_hash(value, change_leaf_names.as_slice())?;
        let root = named_hash(value, root_name.as_slice())?;
        return Ok(Some(MixerTreeEvent::WithdrawChange { index, leaf, root }));
    }
    if contains_symbol(symbols, "transfer") {
        let start_index = named_u64(value, start_index_name.as_slice())?;
        let output_leaves = named_hash_vec(value, output_leaves_name.as_slice())?;
        let root = named_hash(value, root_name.as_slice())?;
        return Ok(Some(MixerTreeEvent::Transfer { start_index, output_leaves, root }));
    }
    Ok(None)
}

/// Adds the string that the member called `key` is, where it is one.
fn push_symbol(members: &Vec<(String, Json)>, key: &str, out: &mut Vec<String>)
    ensures
        texts(final(out)@) == texts(old(out)@) + found_symbol(
            symbol_at(member_trees(members@), key@),
        ),
{
    let at = position_of(members, key);
    if at < members.len() {
        assert(member_trees(members@)[at as int].1 == members@[at as int].1.tree());
        match &members[at].1 {
            Json::Text(s) => {
                out.push(s.clone());
                assert(texts(out@) =~= texts(old(out)@) + seq![s@]);
                return;
            },
            _ => {},
        }
    }
    assert(texts(out@) =~= texts(old(out)@) + Seq::<Seq<char>>::empty());
}

/// Adds the symbols in a topic to `out`.
pub fn collect_symbols(value: &Json, out: &mut Vec<String>)
    ensures
        texts(final(out)@) == texts(old(out)@) + symbols_of(value.tree()),
    decreases value,
{
    match value {
        Json::Text(s) => {
            let words = ["mixer", "init", "deposit", "withdraw", "transfer"];
            assert(words@ =~= topic_words());
            if matches_one_of(s.as_str(), words.as_slice()) {
                out.push(s.clone());
                assert(texts(out@) =~= texts(old(out)@) + seq![s@]);
            } else {
                assert(texts(out@) =~= texts(old(out)@) + Seq::<Seq<char>>::empty());
            }
        },
        Json::Array(items, text) => {
            let ghost all = value.tree()->Array_0;
            let mut i: usize = 0;
            assert(texts(out@) =~= texts(old(out)@) + Seq::<Seq<char>>::empty());
            while i < items.len()
                invariant
                    *value == Json::Array(*items, *text),
                    all == value.tree()->Array_0,
                    i <= items@.len(),
                    texts(out@) == texts(old(out)@) + symbols_of_items(all.subrange(0, i as int)),
                decreases items@.len() - i,
            {
                let ghost next = all.subrange(0, i + 1);
                assert(next.subrange(0, i as int) =~= all.subrange(0, i as int));
                assert(next[i as int] == items@[i as int].tree());
                collect_symbols(&items[i], out);
                assert(texts(out@) =~= texts(old(out)@) + symbols_of_items(next));
                i = i + 1;
            }
            assert(all.subrange(0, all.len() as int) =~= all);
        },
        Json::Object(members, text) => {
            let ghost all = value.tree()->Object_0;
            assert(all =~= member_trees(members@));
            push_symbol(members, "symbol", out);
            push_symbol(members, "sym", out);
            let ghost marked = texts(out@);
            let mut i: usize = 0;
            assert(texts(out@) =~= marked + Seq::<Seq<char>>::empty());
            while i < members.len()
                invariant
                    *value == Json::Object(*members, *text),
                    all == value.tree()->Object_0,
                    i <= members@.len(),
                    texts(out@) == marked + symbols_of_members(all.subrange(0, i as int)),
                decreases members@.len() - i,
            {
                let ghost next = all.subrange(0, i + 1);
                assert(next.subrange(0, i as int) =~= all.subrange(0, i as int));
                assert(next[i as int].1 == members@[i as int].1.tree());
                collect_symbols(&members[i].1, out);
                assert(texts(out@) =~= marked + symbols_of_members(next));
                i = i + 1;
            }
            assert(all.subrange(0, all.len() as int) =~= all);
            assert(texts(out@) =~= texts(old(out)@) + symbols_of(value.tree()));
        },
        _ => {
            assert(texts(out@) =~= texts(old(out)@) + Seq::<Seq<char>>::empty());
        },
    }
}

} // verus!
