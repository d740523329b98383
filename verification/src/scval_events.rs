//! Events read from contract values.
use vstd::prelude::*;
use vstd::string::*;
use vstd::utf8::encode_utf8;

use crate::encoding::{hash_from_bytes, TreeHash};
use crate::events::{
    deposit_of, event_outcome, hash_outcome, hashes, hashes_outcome, invalid, invalid_error, missing,
    missing_error, number_outcome, transfer_of, withdraw_of, FieldError, FieldFault, FieldKind,
    MixerTreeEvent, TreeEvent, ValueError,
};
use crate::ledger_meta::{ContractEventData, EventData};
use crate::scval::{trees, ScTree, ScValue};
use crate::text::same_bytes;

verus! {

/// `tree` is the symbol or the string `word`.
pub open spec fn is_symbol(tree: ScTree, word: Seq<char>) -> bool {
    match tree {
        ScTree::Symbol(bytes) => bytes == encode_utf8(word),
        ScTree::Text(bytes) => bytes == encode_utf8(word),
        _ => false,
    }
}

/// `tree` is one of `names`, as a symbol or a string.
pub open spec fn is_key(tree: ScTree, names: Seq<&str>) -> bool {
    exists|i: int| 0 <= i < names.len() && is_symbol(tree, (#[trigger] names[i])@)
}

/// `word` is among the topics.
pub open spec fn has_topic(topics: Seq<ScTree>, word: Seq<char>) -> bool {
    exists|i: int| 0 <= i < topics.len() && is_symbol(#[trigger] topics[i], word)
}

/// The position of the first entry whose key is one of `names`; the number of
/// entries where there is none.
pub open spec fn entry_at(entries: Seq<(ScTree, ScTree)>, names: Seq<&str>) -> int
    decreases entries.len(),
{
    if entries.len() == 0 || is_key(entries[0].0, names) {
        0
    } else {
        1 + entry_at(entries.subrange(1, entries.len() as int), names)
    }
}

/// The value of the field called by one of `names`: in a map the value of the
/// first entry with such a key, else what the first value that holds the field
/// holds for it; in a list what the first such item holds for it.
pub open spec fn named_scval(tree: ScTree, names: Seq<&str>) -> Option<ScTree>
    decreases tree,
{
    match tree {
        ScTree::Entries(Some(entries)) => {
            let at = entry_at(entries, names);
            if at < entries.len() {
                Some(entries[at].1)
            } else {
                named_in_entries(entries, names)
            }
        },
        ScTree::List(Some(items)) => named_in_list(items, names),
        _ => None,
    }
}

/// What the first of the entries whose value holds the field holds for it.
pub open spec fn named_in_entries(entries: Seq<(ScTree, ScTree)>, names: Seq<&str>) -> Option<
    ScTree,
>
    decreases entries,
{
    if entries.len() == 0 {
        None
    } else if named_scval(entries[0].1, names) is Some {
        named_scval(entries[0].1, names)
    } else {
        named_in_entries(entries.subrange(1, entries.len() as int), names)
    }
}

/// What the first of the items that holds the field holds for it.
pub open spec fn named_in_list(items: Seq<ScTree>, names: Seq<&str>) -> Option<ScTree>
    decreases items,
{
    if items.len() == 0 {
        None
    } else if named_scval(items[0], names) is Some {
        named_scval(items[0], names)
    } else {
        named_in_list(items.subrange(1, items.len() as int), names)
    }
}

/// The number that a value is, where it is natural.
pub open spec fn scval_number(tree: ScTree) -> Result<u64, ValueError> {
    match tree {
        ScTree::U64(n) => Ok(n),
        ScTree::U32(n) => Ok(n as u64),
        ScTree::I64(n) => if n >= 0 {
            Ok(n as u64)
        } else {
            Err(ValueError::NotU64)
        },
        ScTree::I32(n) => if n >= 0 {
            Ok(n as u64)
        } else {
            Err(ValueError::NotU64)
        },
        _ => Err(ValueError::NotU64),
    }
}

/// The hash that a value is.
pub open spec fn scval_hash(tree: ScTree) -> Result<Seq<u8>, ValueError> {
    match tree {
        ScTree::Bytes(bytes) => if bytes.len() == 32 {
            Ok(bytes)
        } else {
            Err(ValueError::HashLength(bytes.len() as usize))
        },
        _ => Err(ValueError::NotBytes),
    }
}

/// The hashes that the items of a list are; the error is that of the first item
/// that is none.
pub open spec fn scval_list_hashes(items: Seq<ScTree>) -> Result<Seq<Seq<u8>>, ValueError>
    decreases items.len(),
{
    if items.len() == 0 {
        Ok(Seq::empty())
    } else {
        match (scval_list_hashes(items.drop_last()), scval_hash(items.last())) {
            (Err(error), _) => Err(error),
            (_, Err(error)) => Err(error),
            (Ok(list), Ok(hash)) => Ok(list.push(hash)),
        }
    }
}

/// The list of hashes that a value is.
pub open spec fn scval_hashes(tree: ScTree) -> Result<Seq<Seq<u8>>, ValueError> {
    match tree {
        ScTree::List(Some(items)) => scval_list_hashes(items),
        ScTree::List(None) => Ok(Seq::empty()),
        _ => Err(ValueError::NotVec),
    }
}

/// The number in the field called by one of `names`.
pub open spec fn scval_number_field(tree: ScTree, names: Seq<&str>) -> Result<u64, FieldFault> {
    match named_scval(tree, names) {
        Some(found) => match scval_number(found) {
            Ok(n) => Ok(n),
            Err(why) => Err(invalid(FieldKind::U64, names, why)),
        },
        None => Err(missing(FieldKind::U64, names)),
    }
}

/// The hash in the field called by one of `names`.
pub open spec fn scval_hash_field(tree: ScTree, names: Seq<&str>) -> Result<Seq<u8>, FieldFault> {
    match named_scval(tree, names) {
        Some(found) => match scval_hash(found) {
            Ok(hash) => Ok(hash),
            Err(why) => Err(invalid(FieldKind::Hash, names, why)),
        },
        None => Err(missing(FieldKind::Hash, names)),
    }
}

/// The hashes in the field called by one of `names`.
pub open spec fn scval_hashes_field(tree: ScTree, names: Seq<&str>) -> Result<
    Seq<Seq<u8>>,
    FieldFault,
> {
    match named_scval(tree, names) {
        Some(found) => match scval_hashes(found) {
            Ok(list) => Ok(list),
            Err(why) => Err(invalid(FieldKind::HashVec, names, why)),
        },
        None => Err(missing(FieldKind::HashVec, names)),
    }
}

/// The tree event that a contract event is, as its topics tell. One without the
/// topic `mixer`, or without a topic that names a kind, is none.
pub open spec fn contract_tree_event(event: EventData) -> Result<Option<TreeEvent>, FieldFault> {
    if !has_topic(event.topics, "mixer"@) {
        Ok(None)
    } else if has_topic(event.topics, "deposit"@) {
        deposit_of(
            scval_number_field(event.data, seq!["index"]),
            scval_hash_field(event.data, seq!["leaf"]),
            scval_hash_field(event.data, seq!["root"]),
        )
    } else if has_topic(event.topics, "withdraw"@) {
        withdraw_of(
            scval_number_field(event.data, seq!["index", "change_index"]),
            scval_hash_field(event.data, seq!["output_leaf", "change_leaf", "leaf"]),
            scval_hash_field(event.data, seq!["root"]),
        )
    } else if has_topic(event.topics, "transfer"@) {
        transfer_of(
            scval_number_field(event.data, seq!["start_index"]),
            scval_hashes_field(event.data, seq!["output_leaves"]),
            scval_hash_field(event.data, seq!["root"]),
        )
    } else {
        Ok(None)
    }
}

/// Whether a value is the symbol or the string `expected`.
pub fn scval_symbol_eq(value: &ScValue, expected: &str) -> (same: bool)
    ensures
        same == is_symbol(value.tree(), expected@),
{
    match value {
        ScValue::Symbol(bytes) => same_bytes(bytes.as_slice(), expected.as_bytes()),
        ScValue::Text(bytes) => same_bytes(bytes.as_slice(), expected.as_bytes()),
        _ => false,
    }
}

/// Whether `expected` is among the topics.
pub fn topics_contain_symbol(topics: &[ScValue], expected: &str) -> (found: bool)
    ensures
        found == has_topic(trees(topics@), expected@),
{
    let mut i: usize = 0;
    while i < topics.len()
        invariant
            i <= topics@.len(),
            forall|k: int| 0 <= k < i ==> !is_symbol(#[trigger] trees(topics@)[k], expected@),
        decreases topics@.len() - i,
    {
        assert(trees(topics@)[i as int] == topics@[i as int].tree());
        if scval_symbol_eq(&topics[i], expected) {
            return true;
        }
        i = i + 1;
    }
    false
}

/// Whether a value is one of `names`.
pub fn scval_key_matches(value: &ScValue, names: &[&str]) -> (found: bool)
    ensures
        found == is_key(value.tree(), names@),
{
    let mut i: usize = 0;
    while i < names.len()
        invariant
            i <= names@.len(),
            forall|k: int| 0 <= k < i ==> !is_symbol(value.tree(), (#[trigger] names@[k])@),
        decreases names@.len() - i,
    {
        if scval_symbol_eq(value, names[i]) {
            return true;
        }
        i = i + 1;
    }
    false
}

/// The position of the first entry whose key is one of `names`.
fn entry_position(entries: &Vec<(ScValue, ScValue)>, names: &[&str]) -> (at: usize)
    ensures
        at == entry_at(ScValue::Entries(Some(*entries)).tree()->Entries_0->0, names@),
        at <= entries@.len(),
{
    let ghost all = ScValue::Entries(Some(*entries)).tree()->Entries_0->0;
    let n: usize = entries.len();
    let mut i: usize = 0;
    assert(all.subrange(0, n as int) =~= all);
    while i < n && !scval_key_matches(&entries[i].0, names)
        invariant
            n == entries@.len(),
            i <= n,
            all == ScValue::Entries(Some(*entries)).tree()->Entries_0->0,
            entry_at(all, names@) == i + entry_at(all.subrange(i as int, n as int), names@),
        decreases n - i,
    {
        let ghost rest = all.subrange(i as int, n as int);
        assert(rest[0].0 == entries@[i as int].0.tree());
        assert(rest.subrange(1, rest.len() as int) =~= all.subrange(i + 1, n as int));
        i = i + 1;
    }
    proof {
        if i < n {
            assert(all.subrange(i as int, n as int)[0].0 == entries@[i as int].0.tree());
        }
    }
    i
}

/// The value of the field called by one of `names`.
pub fn find_named_scval<'a>(value: &'a ScValue, names: &[&str]) -> (out: Option<&'a ScValue>)
    ensures
        match out {
            Some(found) => named_scval(value.tree(), names@) == Some(found.tree()),
            None => named_scval(value.tree(), names@) is None,
        },
    decreases value,
{
    match value {
        ScValue::Entries(Some(entries)) => {
            let ghost all = value.tree()->Entries_0->0;
            let at = entry_position(entries, names);
            if at < entries.len() {
                assert(all[at as int].1 == entries@[at as int].1.tree());
                return Some(&entries[at].1);
            }
            let n: usize = entries.len();
            let mut i: usize = 0;
            assert(all.subrange(0, n as int) =~= all);
            while i < n
                invariant
                    *value == ScValue::Entries(Some(*entries)),
                    all == value.tree()->Entries_0->0,
                    n == entries@.len(),
                    i <= n,
                    named_scval(value.tree(), names@) == named_in_entries(
                        all.subrange(i as int, n as int),
                        names@,
                    ),
                decreases n - i,
            {
                let ghost rest = all.subrange(i as int, n as int);
                assert(rest[0].1 == entries@[i as int].1.tree());
                assert(rest.subrange(1, rest.len() as int) =~= all.subrange(i + 1, n as int));
                match find_named_scval(&entries[i].1, names) {
                    Some(found) => {
                        return Some(found);
                    },
                    None => {},
                }
                i = i + 1;
            }
            None
        },
        ScValue::List(Some(items)) => {
            let ghost all = value.tree()->List_0->0;
            let n: usize = items.len();
            let mut i: usize = 0;
            assert(all.subrange(0, n as int) =~= all);
            while i < n
                invariant
                    *value == ScValue::List(Some(*items)),
                    all == value.tree()->List_0->0,
                    n == items@.len(),
                    i <= n,
                    named_scval(value.tree(), names@) == named_in_list(
                        all.subrange(i as int, n as int),
                        names@,
                    ),
                decreases n - i,
            {
                let ghost rest = all.subrange(i as int, n as int);
                assert(rest[0] == items@[i as int].tree());
                assert(rest.subrange(1, rest.len() as int) =~= all.subrange(i + 1, n as int));
                match find_named_scval(&items[i], names) {
                    Some(found) => {
                        return Some(found);
                    },
                    None => {},
                }
                i = i + 1;
            }
            None
        },
        _ => None,
    }
}

/// The number that a value is.
pub fn scval_to_u64(value: &ScValue) -> (out: Result<u64, ValueError>)
    ensures
        out == scval_number(value.tree()),
{
    match value {
        ScValue::U64(n) => Ok(*n),
        ScValue::U32(n) => Ok(*n as u64),
        ScValue::I64(n) => if *n >= 0 {
            Ok(*n as u64)
        } else {
            Err(ValueError::NotU64)
        },
        ScValue::I32(n) => if *n >= 0 {
            Ok(*n as u64)
        } else {
            Err(ValueError::NotU64)
        },
        _ => Err(ValueError::NotU64),
    }
}

/// The hash that a value is.
pub fn scval_to_hash(value: &ScValue) -> (out: Result<TreeHash, ValueError>)
    ensures
        match out {
            Ok(hash) => scval_hash(value.tree()) == Ok::<Seq<u8>, ValueError>(hash@),
            Err(error) => scval_hash(value.tree()) == Err::<Seq<u8>, ValueError>(error),
        },
{
    match value {
        ScValue::Bytes(bytes) => match hash_from_bytes(bytes.as_slice()) {
            Some(hash) => Ok(hash),
            None => Err(ValueError::HashLength(bytes.len())),
        },
        _ => Err(ValueError::NotBytes),
    }
}

/// A list fails as its first failing front does.
proof fn lemma_list_fails(items: Seq<ScTree>, i: int)
    requires
        0 <= i <= items.len(),
        scval_list_hashes(items.subrange(0, i)) is Err,
    ensures
        scval_list_hashes(items) == scval_list_hashes(items.subrange(0, i)),
    decreases items.len(),
{
    if i == items.len() {
        assert(items.subrange(0, i) =~= items);
    } else {
        assert(items.drop_last().subrange(0, i) =~= items.subrange(0, i));
        lemma_list_fails(items.drop_last(), i);
    }
}

/// The list of hashes that a value is.
pub fn scval_to_hash_vec(value: &ScValue) -> (out: Result<Vec<TreeHash>, ValueError>)
    ensures
        match out {
            Ok(list) => scval_hashes(value.tree()) == Ok::<Seq<Seq<u8>>, ValueError>(hashes(list@)),
            Err(error) => scval_hashes(value.tree()) == Err::<Seq<Seq<u8>>, ValueError>(error),
        },
{
    match value {
        ScValue::List(Some(items)) => {
            let ghost all = value.tree()->List_0->0;
            let mut out: Vec<TreeHash> = Vec::new();
            let mut i: usize = 0;
            assert(hashes(out@) =~= Seq::<Seq<u8>>::empty());
            while i < items.len()
                invariant
                    *value == ScValue::List(Some(*items)),
                    all == value.tree()->List_0->0,
                    i <= items@.len(),
                    scval_list_hashes(all.subrange(0, i as int)) == Ok::<Seq<Seq<u8>>, ValueError>(hashes(out@)),
                decreases items@.len() - i,
            {
                let ghost next = all.subrange(0, i + 1);
                assert(next.drop_last() =~= all.subrange(0, i as int));
                assert(next.last() == items@[i as int].tree());
                match scval_to_hash(&items[i]) {
                    Ok(hash) => {
                        let ghost before = hashes(out@);
                        out.push(hash);
                        assert(hashes(out@) =~= before.push(hash@));
                    },
                    Err(error) => {
                        proof {
                            lemma_list_fails(all, i + 1);
                        }
                        return Err(error);
                    },
                }
                i = i + 1;
            }
            assert(all.subrange(0, all.len() as int) =~= all);
            Ok(out)
        },
        ScValue::List(None) => {
            let out: Vec<TreeHash> = Vec::new();
            assert(hashes(out@) =~= Seq::<Seq<u8>>::empty());
            Ok(out)
        },
        _ => Err(ValueError::NotVec),
    }
}

/// The number in the field called by one of `names`.
pub fn named_scval_u64(value: &ScValue, names: &[&str]) -> (out: Result<u64, FieldError>)
    ensures
        number_outcome(out) == scval_number_field(value.tree(), names@),
{
    match find_named_scval(value, names) {
        Some(found) => match scval_to_u64(found) {
            Ok(n) => Ok(n),
            Err(why) => Err(invalid_error(FieldKind::U64, names, why)),
        },
        None => Err(missing_error(FieldKind::U64, names)),
    }
}

/// The hash in the field called by one of `names`.
pub fn named_scval_hash(value: &ScValue, names: &[&str]) -> (out: Result<TreeHash, FieldError>)
    ensures
        hash_outcome(out) == scval_hash_field(value.tree(), names@),
{
    match find_named_scval(value, names) {
        Some(found) => match scval_to_hash(found) {
            Ok(hash) => Ok(hash),
            Err(why) => Err(invalid_error(FieldKind::Hash, names, why)),
        },
        None => Err(missing_error(FieldKind::Hash, names)),
    }
}

/// The hashes in the field called by one of `names`.
pub fn named_scval_hash_vec(value: &ScValue, names: &[&str]) -> (out: Result<
    Vec<TreeHash>,
    FieldError,
>)
    ensures
        hashes_outcome(out) == scval_hashes_field(value.tree(), names@),
{
    match find_named_scval(value, names) {
        Some(found) => match scval_to_hash_vec(found) {
            Ok(list) => Ok(list),
            Err(why) => Err(invalid_error(FieldKind::HashVec, names, why)),
        },
        None => Err(missing_error(FieldKind::HashVec, names)),
    }
}

/// The tree event that a contract event is.
pub fn parse_contract_event_fast(event: &ContractEventData) -> (out: Result<
    Option<MixerTreeEvent>,
    FieldError,
>)
    ensures
        event_outcome(out) == contract_tree_event(event@),
{
    let index_name = ["index"];
    let leaf_name = ["leaf"];
    let root_name = ["root"];
    let change_index_names = ["index", "change_index"];
    let change_leaf_names = ["output_leaf", "change_leaf", "leaf"];
    let start_index_name = ["start_index"];
    let output_leaves_name = ["output_leaves"];
    proof {
        assert(index_name@ =~= seq!["index"]);
        assert(leaf_name@ =~= seq!["leaf"]);
        assert(root_name@ =~= seq!["root"]);
        assert(change_index_names@ =~= seq!["index", "change_index"]);
        assert(change_leaf_names@ =~= seq!["output_leaf", "change_leaf", "leaf"]);
        assert(start_index_name@ =~= seq!["start_index"]);
        assert(output_leaves_name@ =~= seq!["output_leaves"]);
    }
    let topics = event.topics.as_slice();
    if !topics_contain_symbol(topics, "mixer") {
        return Ok(None);
    }
    if topics_contain_symbol(topics, "deposit") {
        let index = named_scval_u64(&event.data, index_name.as_slice())?;
        let leaf = named_scval_hash(&event.data, leaf_name.as_slice())?;
        let root = named_scval_hash(&event.data, root_name.as_slice())?;
        Ok(Some(MixerTreeEvent::Deposit { index, leaf, root }))
    } else if topics_contain_symbol(topics, "withdraw") {
        let index = named_scval_u64(&event.data, change_index_names.as_slice())?;
        let leaf = named_scval_hash(&event.data, change_leaf_names.as_slice())?;
        let root = named_scval_hash(&event.data, root_name.as_slice())?;
        Ok(Some(MixerTreeEvent::WithdrawChange { index, leaf, root }))
    } else if topics_contain_symbol(topics, "transfer") {
        let start_index = named_scval_u64(&event.data, start_index_name.as_slice())?;
        let output_leaves = named_scval_hash_vec(&event.data, output_leaves_name.as_slice())?;
        let root = named_scval_hash(&event.data, root_name.as_slice())?;
        Ok(Some(MixerTreeEvent::Transfer { start_index, output_leaves, root }))
    } else {
        Ok(None)
    }
}

/// Whether an event is of the contract `mixer_contract_id`.
pub fn contract_event_matches_contract(
    event: &ContractEventData,
    mixer_contract_id: &TreeHash,
) -> (same: bool)
    ensures
        same == (event@.contract_id == Some(mixer_contract_id@)),
{
    match &event.contract_id {
        Some(id) => same_bytes(id.as_slice(), mixer_contract_id.as_slice()),
        None => false,
    }
}

} // verus!
