//! What is read of the events that contracts emit, in whatever order and under whichever
//! of their names the fields stand.
use vstd::prelude::*;
use vstd::string::*;
use vstd::utf8::*;

use crate::events::{FieldError, FieldFault, MixerTreeEvent, TreeEvent, ValueError};
use crate::ledger_meta::{ContractEventData, EventData};
use crate::scval::ScTree;
use crate::scval_events::{
    contract_event_matches_contract, contract_tree_event, entry_at, has_topic, is_key, is_symbol,
    named_in_entries, named_in_list, named_scval, parse_contract_event_fast, scval_hash,
    scval_hash_field, scval_hashes, scval_hashes_field, scval_list_hashes, scval_number,
    scval_number_field,
};

verus! {

/// A contract value is a word: a symbol or a string.
pub open spec fn is_word(tree: ScTree, word: Seq<char>) -> bool {
    tree == ScTree::Symbol(encode_utf8(word)) || tree == ScTree::Text(encode_utf8(word))
}

/// One of the topics is a word.
pub open spec fn has_word(topics: Seq<ScTree>, word: Seq<char>) -> bool {
    exists|i: int| 0 <= i < topics.len() && is_word(#[trigger] topics[i], word)
}

/// A contract value is one of the names.
pub open spec fn goes_by(tree: ScTree, names: Seq<&str>) -> bool {
    exists|i: int| 0 <= i < names.len() && is_word(tree, (#[trigger] names[i])@)
}

/// Some key in a contract value, at any depth, is one of the names.
pub open spec fn mentions(tree: ScTree, names: Seq<&str>) -> bool
    decreases tree,
{
    match tree {
        ScTree::Entries(Some(entries)) => exists|i: int|
            0 <= i < entries.len() && (goes_by((#[trigger] entries[i]).0, names) || mentions(
                entries[i].1,
                names,
            )),
        ScTree::List(Some(items)) => exists|i: int|
            0 <= i < items.len() && mentions(#[trigger] items[i], names),
        _ => false,
    }
}

/// A contract value shows a field: as the value of the first entry of a map whose key is
/// one of its names, or in the first value of a map or list without such a key that
/// mentions it.
pub open spec fn shows(tree: ScTree, names: Seq<&str>, value: ScTree) -> bool
    decreases tree,
{
    match tree {
        ScTree::Entries(Some(entries)) => {
            ||| exists|i: int|
                0 <= i < entries.len() && goes_by((#[trigger] entries[i]).0, names) && entries[i].1
                    == value && no_key_before(entries, names, i)
            ||| no_key_before(entries, names, entries.len() as int) && exists|i: int|
                0 <= i < entries.len() && shows((#[trigger] entries[i]).1, names, value) && forall|
                    j: int,
                |
                    0 <= j < i ==> !mentions((#[trigger] entries[j]).1, names)
        },
        ScTree::List(Some(items)) => exists|i: int|
            0 <= i < items.len() && shows(#[trigger] items[i], names, value) && forall|j: int|
                0 <= j < i ==> !mentions(#[trigger] items[j], names),
        _ => false,
    }
}

/// None of the first `n` keys is one of the names.
pub open spec fn no_key_before(entries: Seq<(ScTree, ScTree)>, names: Seq<&str>, n: int) -> bool {
    forall|j: int| 0 <= j < n ==> !goes_by((#[trigger] entries[j]).0, names)
}

proof fn lemma_same_keys(tree: ScTree, names: Seq<&str>)
    ensures
        is_key(tree, names) == goes_by(tree, names),
{
    if is_key(tree, names) {
        let i = choose|i: int| 0 <= i < names.len() && is_symbol(tree, (#[trigger] names[i])@);
        assert(is_word(tree, names[i]@));
    }
    if goes_by(tree, names) {
        let i = choose|i: int| 0 <= i < names.len() && is_word(tree, (#[trigger] names[i])@);
        assert(is_symbol(tree, names[i]@));
    }
}

proof fn lemma_same_topics(topics: Seq<ScTree>, word: Seq<char>)
    ensures
        has_topic(topics, word) == has_word(topics, word),
{
    if has_topic(topics, word) {
        let i = choose|i: int| 0 <= i < topics.len() && is_symbol(#[trigger] topics[i], word);
        assert(is_word(topics[i], word));
    }
    if has_word(topics, word) {
        let i = choose|i: int| 0 <= i < topics.len() && is_word(#[trigger] topics[i], word);
        assert(is_symbol(topics[i], word));
    }
}

/// Where the first entry stands whose key is one of the names.
proof fn lemma_entry_at(entries: Seq<(ScTree, ScTree)>, names: Seq<&str>, i: int)
    requires
        0 <= i <= entries.len(),
        no_key_before(entries, names, i),
        i < entries.len() ==> goes_by(entries[i].0, names),
    ensures
        entry_at(entries, names) == i,
    decreases entries.len(),
{
    if entries.len() > 0 {
        lemma_same_keys(entries[0].0, names);
        if i > 0 {
            let rest = entries.subrange(1, entries.len() as int);
            assert(!goes_by(entries[0].0, names));
            assert forall|j: int| 0 <= j < i - 1 implies !goes_by(
                (#[trigger] rest[j]).0,
                names,
            ) by {
                assert(rest[j] == entries[j + 1]);
            }
            lemma_entry_at(rest, names, i - 1);
        }
    }
}

/// Nothing is found of a field that is not mentioned.
proof fn lemma_not_mentioned(tree: ScTree, names: Seq<&str>)
    requires
        !mentions(tree, names),
    ensures
        named_scval(tree, names) is None,
    decreases tree, 1nat,
{
    match tree {
        ScTree::Entries(Some(entries)) => {
            assert forall|j: int| 0 <= j < entries.len() implies !goes_by(
                (#[trigger] entries[j]).0,
                names,
            ) && !mentions(entries[j].1, names) by {}
            lemma_entry_at(entries, names, entries.len() as int);
            lemma_entries_not_mentioned(entries, names);
            assert(named_scval(tree, names) == named_in_entries(entries, names));
        },
        ScTree::List(Some(items)) => {
            assert forall|j: int| 0 <= j < items.len() implies !mentions(
                #[trigger] items[j],
                names,
            ) by {}
            lemma_items_not_mentioned(items, names);
            assert(named_scval(tree, names) == named_in_list(items, names));
        },
        _ => {},
    }
}

proof fn lemma_entries_not_mentioned(entries: Seq<(ScTree, ScTree)>, names: Seq<&str>)
    requires
        forall|j: int| 0 <= j < entries.len() ==> !mentions((#[trigger] entries[j]).1, names),
    ensures
        named_in_entries(entries, names) is None,
    decreases entries, 0nat,
{
    if entries.len() > 0 {
        assert(!mentions(entries[0].1, names));
        lemma_not_mentioned(entries[0].1, names);
        let rest = entries.subrange(1, entries.len() as int);
        assert forall|j: int| 0 <= j < rest.len() implies !mentions(
            (#[trigger] rest[j]).1,
            names,
        ) by {
            assert(rest[j] == entries[j + 1]);
        }
        lemma_entries_not_mentioned(rest, names);
    }
}

proof fn lemma_items_not_mentioned(items: Seq<ScTree>, names: Seq<&str>)
    requires
        forall|j: int| 0 <= j < items.len() ==> !mentions(#[trigger] items[j], names),
    ensures
        named_in_list(items, names) is None,
    decreases items, 0nat,
{
    if items.len() > 0 {
        assert(!mentions(items[0], names));
        lemma_not_mentioned(items[0], names);
        let rest = items.subrange(1, items.len() as int);
        assert forall|j: int| 0 <= j < rest.len() implies !mentions(#[trigger] rest[j], names) by {
            assert(rest[j] == items[j + 1]);
        }
        lemma_items_not_mentioned(rest, names);
    }
}

/// A field that is shown is found with the value that is shown for it, and one that is
/// not mentioned is not found.
pub proof fn shown_value_is_found(tree: ScTree, names: Seq<&str>, value: ScTree)
    requires
        shows(tree, names, value),
    ensures
        named_scval(tree, names) == Some(value),
    decreases tree, 1nat,
{
    match tree {
        ScTree::Entries(Some(entries)) => {
            if no_key_before(entries, names, entries.len() as int) {
                lemma_entry_at(entries, names, entries.len() as int);
                assert(exists|i: int|
                    0 <= i < entries.len() && shows((#[trigger] entries[i]).1, names, value)
                        && forall|j: int|
                        0 <= j < i ==> !mentions((#[trigger] entries[j]).1, names));
                let i = choose|i: int|
                    0 <= i < entries.len() && shows((#[trigger] entries[i]).1, names, value)
                        && forall|j: int|
                        0 <= j < i ==> !mentions((#[trigger] entries[j]).1, names);
                lemma_shown_in_entries(entries, names, value, i);
                assert(named_scval(tree, names) == named_in_entries(entries, names));
            } else {
                let i = choose|i: int|
                    0 <= i < entries.len() && goes_by((#[trigger] entries[i]).0, names)
                        && entries[i].1 == value && no_key_before(entries, names, i);
                lemma_entry_at(entries, names, i);
            }
        },
        ScTree::List(Some(items)) => {
            let i = choose|i: int|
                0 <= i < items.len() && shows(#[trigger] items[i], names, value) && forall|j: int|
                    0 <= j < i ==> !mentions(#[trigger] items[j], names);
            lemma_shown_in_items(items, names, value, i);
            assert(named_scval(tree, names) == named_in_list(items, names));
        },
        _ => {},
    }
}

proof fn lemma_shown_in_entries(
    entries: Seq<(ScTree, ScTree)>,
    names: Seq<&str>,
    value: ScTree,
    i: int,
)
    requires
        0 <= i < entries.len(),
        shows(entries[i].1, names, value),
        forall|j: int| 0 <= j < i ==> !mentions((#[trigger] entries[j]).1, names),
    ensures
        named_in_entries(entries, names) == Some(value),
    decreases entries, 0nat,
{
    if i == 0 {
        shown_value_is_found(entries[0].1, names, value);
    } else {
        assert(!mentions(entries[0].1, names));
        lemma_not_mentioned(entries[0].1, names);
        let rest = entries.subrange(1, entries.len() as int);
        assert(rest[i - 1] == entries[i]);
        assert forall|j: int| 0 <= j < i - 1 implies !mentions((#[trigger] rest[j]).1, names) by {
            assert(rest[j] == entries[j + 1]);
        }
        lemma_shown_in_entries(rest, names, value, i - 1);
    }
}

proof fn lemma_shown_in_items(items: Seq<ScTree>, names: Seq<&str>, value: ScTree, i: int)
    requires
        0 <= i < items.len(),
        shows(items[i], names, value),
        forall|j: int| 0 <= j < i ==> !mentions(#[trigger] items[j], names),
    ensures
        named_in_list(items, names) == Some(value),
    decreases items, 0nat,
{
    if i == 0 {
        shown_value_is_found(items[0], names, value);
    } else {
        assert(!mentions(items[0], names));
        lemma_not_mentioned(items[0], names);
        let rest = items.subrange(1, items.len() as int);
        assert(rest[i - 1] == items[i]);
        assert forall|j: int| 0 <= j < i - 1 implies !mentions(#[trigger] rest[j], names) by {
            assert(rest[j] == items[j + 1]);
        }
        lemma_shown_in_items(rest, names, value, i - 1);
    }
}

/// A contract value is a natural number of any of the integer types.
pub open spec fn is_number(tree: ScTree, n: u64) -> bool {
    match tree {
        ScTree::U64(m) => m == n,
        ScTree::U32(m) => m == n,
        ScTree::I64(m) => m == n,
        ScTree::I32(m) => m == n,
        _ => false,
    }
}

/// A number is read if and only if the value is that number; negative numbers and other
/// values are refused.
pub proof fn numbers_are_read(tree: ScTree, n: u64)
    ensures
        scval_number(tree) == Ok::<u64, ValueError>(n) <==> is_number(tree, n),
{
}

/// A hash is read if and only if the value is those 32 bytes.
pub proof fn hashes_are_read(tree: ScTree, hash: Seq<u8>)
    ensures
        scval_hash(tree) == Ok::<Seq<u8>, ValueError>(hash) <==> tree == ScTree::Bytes(hash)
            && hash.len() == 32,
{
}

/// A contract value is a list of hashes.
pub open spec fn is_hash_list(tree: ScTree, list: Seq<Seq<u8>>) -> bool {
    match tree {
        ScTree::List(None) => list.len() == 0,
        ScTree::List(Some(items)) => {
            &&& items.len() == list.len()
            &&& forall|i: int|
                0 <= i < items.len() ==> #[trigger] items[i] == ScTree::Bytes(list[i])
                    && list[i].len() == 32
        },
        _ => false,
    }
}

/// A list of hashes is read if and only if the value is that list, in order.
pub proof fn hash_lists_are_read(tree: ScTree, list: Seq<Seq<u8>>)
    ensures
        scval_hashes(tree) == Ok::<Seq<Seq<u8>>, ValueError>(list) <==> is_hash_list(tree, list),
{
    match tree {
        ScTree::List(Some(items)) => lemma_hash_items(items, list),
        ScTree::List(None) => {
            if list.len() == 0 {
                assert(list =~= Seq::empty());
            }
        },
        _ => {},
    }
}

proof fn lemma_hash_items(items: Seq<ScTree>, list: Seq<Seq<u8>>)
    ensures
        scval_list_hashes(items) == Ok::<Seq<Seq<u8>>, ValueError>(list) <==> {
            &&& items.len() == list.len()
            &&& forall|i: int|
                0 <= i < items.len() ==> #[trigger] items[i] == ScTree::Bytes(list[i])
                    && list[i].len() == 32
        },
    decreases items.len(),
{
    if items.len() == 0 {
        if list.len() == 0 {
            assert(list =~= Seq::empty());
        }
    } else {
        let n = items.len() - 1;
        let front = items.drop_last();
        match scval_list_hashes(front) {
            Ok(got) => {
                lemma_hash_items(front, got);
                if scval_list_hashes(items) == Ok::<Seq<Seq<u8>>, ValueError>(list) {
                    assert(list.drop_last() =~= got);
                    assert forall|i: int| 0 <= i < items.len() implies #[trigger] items[i]
                        == ScTree::Bytes(list[i]) && list[i].len() == 32 by {
                        if i < n {
                            assert(front[i] == items[i]);
                        }
                    }
                }
            },
            Err(_) => {},
        }
        if items.len() == list.len() && forall|i: int|
            0 <= i < items.len() ==> #[trigger] items[i] == ScTree::Bytes(list[i])
                && list[i].len() == 32 {
            let short = list.drop_last();
            assert forall|i: int| 0 <= i < front.len() implies #[trigger] front[i]
                == ScTree::Bytes(short[i]) && short[i].len() == 32 by {
                assert(front[i] == items[i]);
            }
            lemma_hash_items(front, short);
            assert(items[n] == ScTree::Bytes(list[n]));
            assert(short.push(list.last()) =~= list);
        }
    }
}

/// The value shows a number in a field.
pub open spec fn shows_number(tree: ScTree, names: Seq<&str>, n: u64) -> bool {
    exists|value: ScTree| #[trigger] shows(tree, names, value) && is_number(value, n)
}

/// The value shows a hash in a field.
pub open spec fn shows_hash(tree: ScTree, names: Seq<&str>, hash: Seq<u8>) -> bool {
    hash.len() == 32 && shows(tree, names, ScTree::Bytes(hash))
}

/// The value shows a list of hashes in a field.
pub open spec fn shows_hashes(tree: ScTree, names: Seq<&str>, list: Seq<Seq<u8>>) -> bool {
    exists|value: ScTree| #[trigger] shows(tree, names, value) && is_hash_list(value, list)
}

/// The value shows the fields of an event, each under one of the names that it goes by.
pub open spec fn shows_event(tree: ScTree, event: TreeEvent) -> bool {
    match event {
        TreeEvent::Deposit { index, leaf, root } => {
            &&& shows_number(tree, seq!["index"], index)
            &&& shows_hash(tree, seq!["leaf"], leaf)
            &&& shows_hash(tree, seq!["root"], root)
        },
        TreeEvent::WithdrawChange { index, leaf, root } => {
            &&& shows_number(tree, seq!["index", "change_index"], index)
            &&& shows_hash(tree, seq!["output_leaf", "change_leaf", "leaf"], leaf)
            &&& shows_hash(tree, seq!["root"], root)
        },
        TreeEvent::Transfer { start_index, output_leaves, root } => {
            &&& shows_number(tree, seq!["start_index"], start_index)
            &&& shows_hashes(tree, seq!["output_leaves"], output_leaves)
            &&& shows_hash(tree, seq!["root"], root)
        },
    }
}

/// The topics say that the event is one of the mixer, and name its kind. Where they name
/// several, a deposit comes before a withdrawal, and that before a transfer.
pub open spec fn names_kind(topics: Seq<ScTree>, event: TreeEvent) -> bool {
    &&& has_word(topics, "mixer"@)
    &&& match event {
        TreeEvent::Deposit { .. } => has_word(topics, "deposit"@),
        TreeEvent::WithdrawChange { .. } => {
            &&& has_word(topics, "withdraw"@)
            &&& !has_word(topics, "deposit"@)
        },
        TreeEvent::Transfer { .. } => {
            &&& has_word(topics, "transfer"@)
            &&& !has_word(topics, "deposit"@)
            &&& !has_word(topics, "withdraw"@)
        },
    }
}

proof fn lemma_number_field(tree: ScTree, names: Seq<&str>, n: u64)
    requires
        shows_number(tree, names, n),
    ensures
        scval_number_field(tree, names) == Ok::<u64, FieldFault>(n),
{
    let value = choose|value: ScTree| #[trigger] shows(tree, names, value) && is_number(value, n);
    shown_value_is_found(tree, names, value);
    numbers_are_read(value, n);
}

proof fn lemma_hash_field(tree: ScTree, names: Seq<&str>, hash: Seq<u8>)
    requires
        shows_hash(tree, names, hash),
    ensures
        scval_hash_field(tree, names) == Ok::<Seq<u8>, FieldFault>(hash),
{
    shown_value_is_found(tree, names, ScTree::Bytes(hash));
    hashes_are_read(ScTree::Bytes(hash), hash);
}

/// An event of any kind that the contract emits, with its fields in any order and depth
/// and under any of their names, is read as it was emitted.
pub proof fn emitted_event_is_read(
    event: ContractEventData,
    shown: TreeEvent,
    out: Result<Option<MixerTreeEvent>, FieldError>,
)
    requires
        names_kind(event@.topics, shown),
        shows_event(event@.data, shown),
        call_ensures(parse_contract_event_fast, (&event,), out),
    ensures
        out matches Ok(Some(parsed)) && parsed@ == shown,
{
    event_data_are_read(event@, shown);
}

/// The data of an event are read as they show it.
pub proof fn event_data_are_read(event: EventData, shown: TreeEvent)
    requires
        names_kind(event.topics, shown),
        shows_event(event.data, shown),
    ensures
        contract_tree_event(event) == Ok::<Option<TreeEvent>, FieldFault>(Some(shown)),
{
    lemma_same_topics(event.topics, "mixer"@);
    lemma_same_topics(event.topics, "deposit"@);
    lemma_same_topics(event.topics, "withdraw"@);
    lemma_same_topics(event.topics, "transfer"@);
    let tree = event.data;
    match shown {
        TreeEvent::Deposit { index, leaf, root } => {
            lemma_number_field(tree, seq!["index"], index);
            lemma_hash_field(tree, seq!["leaf"], leaf);
            lemma_hash_field(tree, seq!["root"], root);
        },
        TreeEvent::WithdrawChange { index, leaf, root } => {
            lemma_number_field(tree, seq!["index", "change_index"], index);
            lemma_hash_field(tree, seq!["output_leaf", "change_leaf", "leaf"], leaf);
            lemma_hash_field(tree, seq!["root"], root);
        },
        TreeEvent::Transfer { start_index, output_leaves, root } => {
            lemma_number_field(tree, seq!["start_index"], start_index);
            let names: Seq<&str> = seq!["output_leaves"];
            let value = choose|value: ScTree|
                #[trigger] shows(tree, names, value) && is_hash_list(value, output_leaves);
            shown_value_is_found(tree, names, value);
            hash_lists_are_read(value, output_leaves);
            assert(scval_hashes_field(tree, names) == Ok::<Seq<Seq<u8>>, FieldFault>(
                output_leaves,
            ));
            lemma_hash_field(tree, seq!["root"], root);
        },
    }
}

/// An event without the topic `mixer`, or without one that names a kind, is no tree event,
/// whatever its data.
pub proof fn other_event_is_none(
    event: ContractEventData,
    out: Result<Option<MixerTreeEvent>, FieldError>,
)
    requires
        call_ensures(parse_contract_event_fast, (&event,), out),
        !has_word(event@.topics, "mixer"@) || (!has_word(event@.topics, "deposit"@) && !has_word(
            event@.topics,
            "withdraw"@,
        ) && !has_word(event@.topics, "transfer"@)),
    ensures
        out matches Ok(parsed) && parsed is None,
{
    lemma_same_topics(event@.topics, "mixer"@);
    lemma_same_topics(event@.topics, "deposit"@);
    lemma_same_topics(event@.topics, "withdraw"@);
    lemma_same_topics(event@.topics, "transfer"@);
}

/// A mixer event of a kind whose data do not mention one of its fields is an error.
pub proof fn event_without_a_field_is_an_error(
    event: ContractEventData,
    out: Result<Option<MixerTreeEvent>, FieldError>,
)
    requires
        call_ensures(parse_contract_event_fast, (&event,), out),
        has_word(event@.topics, "mixer"@),
        ({
            let (topics, data) = (event@.topics, event@.data);
            ||| !mentions(data, seq!["root"]) && (has_word(topics, "deposit"@) || has_word(
                topics,
                "withdraw"@,
            ) || has_word(topics, "transfer"@))
            ||| has_word(topics, "deposit"@) && (!mentions(data, seq!["index"]) || !mentions(
                data,
                seq!["leaf"],
            ))
            ||| has_word(topics, "withdraw"@) && !has_word(topics, "deposit"@) && (!mentions(
                data,
                seq!["index", "change_index"],
            ) || !mentions(data, seq!["output_leaf", "change_leaf", "leaf"]))
            ||| has_word(topics, "transfer"@) && !has_word(topics, "deposit"@) && !has_word(
                topics,
                "withdraw"@,
            ) && (!mentions(data, seq!["start_index"]) || !mentions(data, seq!["output_leaves"]))
        }),
    ensures
        out is Err,
{
    let (topics, data) = (event@.topics, event@.data);
    lemma_same_topics(topics, "mixer"@);
    lemma_same_topics(topics, "deposit"@);
    lemma_same_topics(topics, "withdraw"@);
    lemma_same_topics(topics, "transfer"@);
    if !mentions(data, seq!["root"]) {
        lemma_not_mentioned(data, seq!["root"]);
    }
    if !mentions(data, seq!["index"]) {
        lemma_not_mentioned(data, seq!["index"]);
    }
    if !mentions(data, seq!["leaf"]) {
        lemma_not_mentioned(data, seq!["leaf"]);
    }
    if !mentions(data, seq!["index", "change_index"]) {
        lemma_not_mentioned(data, seq!["index", "change_index"]);
    }
    if !mentions(data, seq!["output_leaf", "change_leaf", "leaf"]) {
        lemma_not_mentioned(data, seq!["output_leaf", "change_leaf", "leaf"]);
    }
    if !mentions(data, seq!["start_index"]) {
        lemma_not_mentioned(data, seq!["start_index"]);
    }
    if !mentions(data, seq!["output_leaves"]) {
        lemma_not_mentioned(data, seq!["output_leaves"]);
    }
}

/// An event is one of a contract if and only if it names exactly its id.
pub proof fn events_are_told_by_their_contract(
    event: ContractEventData,
    contract: [u8; 32],
    same: bool,
)
    requires
        call_ensures(contract_event_matches_contract, (&event, &contract), same),
    ensures
        same <==> (event.contract_id matches Some(id) && id@ == contract@),
{
}

} // verus!
