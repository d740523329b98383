//! What is read of the events that the contract emits.
use vstd::prelude::*;
use vstd::string::*;
use vstd::utf8::*;

use crate::encoding::{hash_text_reads_back, hex_text};
use crate::events::{FieldFault, TreeEvent, ValueError};
use crate::json::{first_key_at, key_at, JsonTree};
use crate::json_events::{
    hash_field, hashes_field, json_event, json_hash, list_hashes, number_field,
};
use crate::ledger_meta::EventData;
use crate::scval::ScTree;
use crate::scval_events::{
    contract_tree_event, entry_at, has_topic, is_key, is_symbol, scval_hash, scval_hash_field,
    scval_hashes_field, scval_list_hashes, scval_number_field,
};
use crate::text::decimal;

verus! {

/// An entry of a contract map.
pub open spec fn entry(name: Seq<char>, value: ScTree) -> (ScTree, ScTree) {
    (ScTree::Symbol(encode_utf8(name)), value)
}

/// Hashes as contract values.
pub open spec fn hash_values(list: Seq<Seq<u8>>) -> Seq<ScTree> {
    list.map_values(|hash: Seq<u8>| ScTree::Bytes(hash))
}

/// Each is a hash of 32 bytes.
pub open spec fn all_hashes(list: Seq<Seq<u8>>) -> bool {
    forall|i: int| 0 <= i < list.len() ==> (#[trigger] list[i]).len() == 32
}

/// The topics say that the event is a mixer event.
pub open spec fn is_mixer(event: EventData) -> bool {
    has_topic(event.topics, "mixer"@)
}

proof fn lemma_symbol(name: Seq<char>, word: Seq<char>, value: ScTree)
    ensures
        is_symbol(entry(name, value).0, word) == (name == word),
{
    encode_utf8_decode_utf8(name);
    encode_utf8_decode_utf8(word);
}

proof fn lemma_key(name: Seq<char>, value: ScTree, names: Seq<&str>)
    ensures
        is_key(entry(name, value).0, names) == (exists|i: int|
            0 <= i < names.len() && (#[trigger] names[i])@ == name),
{
    assert forall|i: int| 0 <= i < names.len() implies is_symbol(
        entry(name, value).0,
        (#[trigger] names[i])@,
    ) == (names[i]@ == name) by {
        lemma_symbol(name, names[i]@, value);
    }
    if is_key(entry(name, value).0, names) {
        let i = choose|i: int|
            0 <= i < names.len() && is_symbol(entry(name, value).0, (#[trigger] names[i])@);
        assert(names[i]@ == name);
    }
    if exists|i: int| 0 <= i < names.len() && (#[trigger] names[i])@ == name {
        let i = choose|i: int| 0 <= i < names.len() && (#[trigger] names[i])@ == name;
        assert(is_symbol(entry(name, value).0, names[i]@));
    }
}

/// Where the first of three entries stands that has one of the names.
proof fn lemma_three_entries(
    a: (Seq<char>, ScTree),
    b: (Seq<char>, ScTree),
    c: (Seq<char>, ScTree),
    names: Seq<&str>,
)
    ensures
        ({
            let at = entry_at(seq![entry(a.0, a.1), entry(b.0, b.1), entry(c.0, c.1)], names);
            if is_key(entry(a.0, a.1).0, names) {
                at == 0
            } else if is_key(entry(b.0, b.1).0, names) {
                at == 1
            } else if is_key(entry(c.0, c.1).0, names) {
                at == 2
            } else {
                at == 3
            }
        }),
{
    let (x, y, z) = (entry(a.0, a.1), entry(b.0, b.1), entry(c.0, c.1));
    reveal_with_fuel(entry_at, 4);
    assert(seq![x, y, z].subrange(1, 3) =~= seq![y, z]);
    assert(seq![y, z].subrange(1, 2) =~= seq![z]);
    assert(seq![z].subrange(1, 1) =~= Seq::empty());
}

/// The names of fields differ.
proof fn lemma_names()
    ensures
        "index"@.len() == 5,
        "leaf"@.len() == 4,
        "root"@.len() == 4,
        "leaf"@ != "root"@,
        "output_leaf"@.len() == 11,
        "change_leaf"@.len() == 11,
        "output_leaf"@ != "change_leaf"@,
        "change_index"@.len() == 12,
        "output_leaves"@.len() == 13,
        "start_index"@.len() == 11,
        "start_index"@ != "output_leaf"@,
{
    reveal_strlit("index");
    reveal_strlit("leaf");
    reveal_strlit("root");
    reveal_strlit("output_leaf");
    reveal_strlit("change_leaf");
    reveal_strlit("change_index");
    reveal_strlit("output_leaves");
    reveal_strlit("start_index");
    assert("leaf"@[0] != "root"@[0]);
    assert("output_leaf"@[0] != "change_leaf"@[0]);
    assert("start_index"@[0] != "output_leaf"@[0]);
}

/// A deposit that the contract emits is read as it was emitted.
pub proof fn emitted_deposit_is_read(event: EventData, index: u64, leaf: Seq<u8>, root: Seq<u8>)
    requires
        is_mixer(event),
        has_topic(event.topics, "deposit"@),
        leaf.len() == 32,
        root.len() == 32,
        event.data == ScTree::Entries(
            Some(
                seq![
                    entry("index"@, ScTree::U64(index)),
                    entry("leaf"@, ScTree::Bytes(leaf)),
                    entry("root"@, ScTree::Bytes(root)),
                ],
            ),
        ),
    ensures
        contract_tree_event(event) == Ok::<Option<TreeEvent>, FieldFault>(
            Some(TreeEvent::Deposit { index, leaf, root }),
        ),
{
    let (a, b, c) = (
        ("index"@, ScTree::U64(index)),
        ("leaf"@, ScTree::Bytes(leaf)),
        ("root"@, ScTree::Bytes(root)),
    );
    lemma_names();
    let names: Seq<&str> = seq!["index"];
    lemma_three_entries(a, b, c, names);
    lemma_key(a.0, a.1, names);
    assert(names[0]@ == a.0);
    assert(scval_number_field(event.data, names) == Ok::<u64, FieldFault>(index));
    let names: Seq<&str> = seq!["leaf"];
    lemma_three_entries(a, b, c, names);
    lemma_key(a.0, a.1, names);
    lemma_key(b.0, b.1, names);
    assert(names[0]@ == b.0);
    assert(scval_hash_field(event.data, names) == Ok::<Seq<u8>, FieldFault>(leaf));
    let names: Seq<&str> = seq!["root"];
    lemma_three_entries(a, b, c, names);
    lemma_key(a.0, a.1, names);
    lemma_key(b.0, b.1, names);
    lemma_key(c.0, c.1, names);
    assert(names[0]@ == c.0);
    assert(scval_hash_field(event.data, names) == Ok::<Seq<u8>, FieldFault>(root));
}

/// The change of a withdrawal that the contract emits is read as it was emitted.
pub proof fn emitted_change_is_read(event: EventData, index: u64, leaf: Seq<u8>, root: Seq<u8>)
    requires
        is_mixer(event),
        !has_topic(event.topics, "deposit"@),
        has_topic(event.topics, "withdraw"@),
        leaf.len() == 32,
        root.len() == 32,
        event.data == ScTree::Entries(
            Some(
                seq![
                    entry("index"@, ScTree::U64(index)),
                    entry("output_leaf"@, ScTree::Bytes(leaf)),
                    entry("root"@, ScTree::Bytes(root)),
                ],
            ),
        ),
    ensures
        contract_tree_event(event) == Ok::<Option<TreeEvent>, FieldFault>(
            Some(TreeEvent::WithdrawChange { index, leaf, root }),
        ),
{
    let (a, b, c) = (
        ("index"@, ScTree::U64(index)),
        ("output_leaf"@, ScTree::Bytes(leaf)),
        ("root"@, ScTree::Bytes(root)),
    );
    lemma_names();
    let names: Seq<&str> = seq!["index", "change_index"];
    lemma_three_entries(a, b, c, names);
    lemma_key(a.0, a.1, names);
    assert(names[0]@ == a.0);
    assert(scval_number_field(event.data, names) == Ok::<u64, FieldFault>(index));
    let names: Seq<&str> = seq!["output_leaf", "change_leaf", "leaf"];
    lemma_three_entries(a, b, c, names);
    lemma_key(a.0, a.1, names);
    lemma_key(b.0, b.1, names);
    assert(names[0]@ == b.0);
    assert(scval_hash_field(event.data, names) == Ok::<Seq<u8>, FieldFault>(leaf));
    let names: Seq<&str> = seq!["root"];
    lemma_three_entries(a, b, c, names);
    lemma_key(a.0, a.1, names);
    lemma_key(b.0, b.1, names);
    lemma_key(c.0, c.1, names);
    assert(names[0]@ == c.0);
    assert(scval_hash_field(event.data, names) == Ok::<Seq<u8>, FieldFault>(root));
}

proof fn lemma_values_are_hashes(list: Seq<Seq<u8>>)
    requires
        all_hashes(list),
    ensures
        scval_list_hashes(hash_values(list)) == Ok::<Seq<Seq<u8>>, ValueError>(list),
    decreases list.len(),
{
    if list.len() > 0 {
        let front = list.drop_last();
        assert(all_hashes(front)) by {
            assert forall|i: int| 0 <= i < front.len() implies (#[trigger] front[i]).len()
                == 32 by {
                assert(front[i] == list[i]);
            }
        }
        lemma_values_are_hashes(front);
        assert(hash_values(list).drop_last() =~= hash_values(front));
        assert(front.push(list.last()) =~= list);
        assert(list[list.len() - 1].len() == 32);
        assert(scval_hash(hash_values(list).last()) == Ok::<Seq<u8>, ValueError>(
            list.last(),
        ));
    } else {
        assert(list =~= Seq::empty());
    }
}

/// A transfer that the contract emits is read as it was emitted.
pub proof fn emitted_transfer_is_read(
    event: EventData,
    start_index: u64,
    output_leaves: Seq<Seq<u8>>,
    root: Seq<u8>,
)
    requires
        is_mixer(event),
        !has_topic(event.topics, "deposit"@),
        !has_topic(event.topics, "withdraw"@),
        has_topic(event.topics, "transfer"@),
        all_hashes(output_leaves),
        root.len() == 32,
        event.data == ScTree::Entries(
            Some(
                seq![
                    entry("output_leaves"@, ScTree::List(Some(hash_values(output_leaves)))),
                    entry("root"@, ScTree::Bytes(root)),
                    entry("start_index"@, ScTree::U64(start_index)),
                ],
            ),
        ),
    ensures
        contract_tree_event(event) == Ok::<Option<TreeEvent>, FieldFault>(
            Some(TreeEvent::Transfer { start_index, output_leaves, root }),
        ),
{
    let (a, b, c) = (
        ("output_leaves"@, ScTree::List(Some(hash_values(output_leaves)))),
        ("root"@, ScTree::Bytes(root)),
        ("start_index"@, ScTree::U64(start_index)),
    );
    lemma_names();
    lemma_values_are_hashes(output_leaves);
    let names: Seq<&str> = seq!["start_index"];
    lemma_three_entries(a, b, c, names);
    lemma_key(a.0, a.1, names);
    lemma_key(b.0, b.1, names);
    lemma_key(c.0, c.1, names);
    assert(names[0]@ == c.0);
    assert(scval_number_field(event.data, names) == Ok::<u64, FieldFault>(start_index));
    let names: Seq<&str> = seq!["output_leaves"];
    lemma_three_entries(a, b, c, names);
    lemma_key(a.0, a.1, names);
    assert(names[0]@ == a.0);
    assert(scval_hashes_field(event.data, names) == Ok::<Seq<Seq<u8>>, FieldFault>(
        output_leaves,
    ));
    let names: Seq<&str> = seq!["root"];
    lemma_three_entries(a, b, c, names);
    lemma_key(a.0, a.1, names);
    lemma_key(b.0, b.1, names);
    assert(names[0]@ == b.0);
    assert(scval_hash_field(event.data, names) == Ok::<Seq<u8>, FieldFault>(root));
}

/// A hash as JSON, in hexadecimal.
pub open spec fn hash_json(hash: Seq<u8>) -> JsonTree {
    JsonTree::Text(hex_text(hash))
}

/// A number as JSON.
pub open spec fn number_json(n: u64) -> JsonTree {
    JsonTree::Number { value: Some(n), text: decimal(n as nat) }
}

/// Hashes as JSON.
pub open spec fn hashes_json(list: Seq<Seq<u8>>) -> Seq<JsonTree> {
    list.map_values(|hash: Seq<u8>| hash_json(hash))
}

/// Where the first of three members stands that goes by a name.
proof fn lemma_three_members(
    a: (Seq<char>, JsonTree),
    b: (Seq<char>, JsonTree),
    c: (Seq<char>, JsonTree),
    name: Seq<char>,
)
    ensures
        key_at(seq![a, b, c], name) == (if a.0 == name {
            0int
        } else if b.0 == name {
            1
        } else if c.0 == name {
            2
        } else {
            3
        }),
{
    reveal_with_fuel(key_at, 4);
    assert(seq![a, b, c].subrange(1, 3) =~= seq![b, c]);
    assert(seq![b, c].subrange(1, 2) =~= seq![c]);
    assert(seq![c].subrange(1, 1) =~= Seq::empty());
}

/// The first name that any member goes by is the first name, where one does.
proof fn lemma_first_name(members: Seq<(Seq<char>, JsonTree)>, names: Seq<&str>)
    requires
        names.len() > 0,
        key_at(members, names[0]@) < members.len(),
    ensures
        first_key_at(members, names) == key_at(members, names[0]@),
{
}

/// A deposit that the RPC service reports as an object of its fields, however that is
/// written, is read as it was reported.
pub proof fn reported_deposit_is_read(
    symbols: Seq<Seq<char>>,
    index: u64,
    leaf: Seq<u8>,
    root: Seq<u8>,
    text: Seq<char>,
)
    requires
        symbols.contains("deposit"@),
        leaf.len() == 32,
        root.len() == 32,
    ensures
        json_event(
            symbols,
            JsonTree::Object(
                seq![
                    ("index"@, number_json(index)),
                    ("leaf"@, hash_json(leaf)),
                    ("root"@, hash_json(root)),
                ],
                text,
            ),
        ) == Ok::<Option<TreeEvent>, FieldFault>(Some(TreeEvent::Deposit { index, leaf, root })),
{
    let (a, b, c) = (
        ("index"@, number_json(index)),
        ("leaf"@, hash_json(leaf)),
        ("root"@, hash_json(root)),
    );
    let members = seq![a, b, c];
    let tree = JsonTree::Object(members, text);
    lemma_names();
    lemma_three_members(a, b, c, "index"@);
    lemma_three_members(a, b, c, "leaf"@);
    lemma_three_members(a, b, c, "root"@);
    lemma_first_name(members, seq!["index"]);
    lemma_first_name(members, seq!["leaf"]);
    lemma_first_name(members, seq!["root"]);
    hash_text_reads_back(leaf);
    hash_text_reads_back(root);
    assert(number_field(tree, seq!["index"]) == Ok::<u64, FieldFault>(index));
    assert(hash_field(tree, seq!["leaf"]) == Ok::<Seq<u8>, FieldFault>(leaf));
    assert(hash_field(tree, seq!["root"]) == Ok::<Seq<u8>, FieldFault>(root));
}

/// The change of a withdrawal that the RPC service reports as an object of its
/// fields, however that is written, is read as it was reported.
pub proof fn reported_change_is_read(
    symbols: Seq<Seq<char>>,
    index: u64,
    leaf: Seq<u8>,
    root: Seq<u8>,
    text: Seq<char>,
)
    requires
        !symbols.contains("deposit"@),
        symbols.contains("withdraw"@),
        leaf.len() == 32,
        root.len() == 32,
    ensures
        json_event(
            symbols,
            JsonTree::Object(
                seq![
                    ("index"@, number_json(index)),
                    ("output_leaf"@, hash_json(leaf)),
                    ("root"@, hash_json(root)),
                ],
                text,
            ),
        ) == Ok::<Option<TreeEvent>, FieldFault>(
            Some(TreeEvent::WithdrawChange { index, leaf, root }),
        ),
{
    let (a, b, c) = (
        ("index"@, number_json(index)),
        ("output_leaf"@, hash_json(leaf)),
        ("root"@, hash_json(root)),
    );
    let members = seq![a, b, c];
    let tree = JsonTree::Object(members, text);
    lemma_names();
    lemma_three_members(a, b, c, "index"@);
    lemma_three_members(a, b, c, "output_leaf"@);
    lemma_three_members(a, b, c, "root"@);
    lemma_first_name(members, seq!["index", "change_index"]);
    lemma_first_name(members, seq!["output_leaf", "change_leaf", "leaf"]);
    lemma_first_name(members, seq!["root"]);
    hash_text_reads_back(leaf);
    hash_text_reads_back(root);
    assert(number_field(tree, seq!["index", "change_index"]) == Ok::<u64, FieldFault>(index));
    assert(hash_field(tree, seq!["output_leaf", "change_leaf", "leaf"]) == Ok::<
        Seq<u8>,
        FieldFault,
    >(leaf));
    assert(hash_field(tree, seq!["root"]) == Ok::<Seq<u8>, FieldFault>(root));
}

proof fn lemma_texts_are_hashes(list: Seq<Seq<u8>>)
    requires
        all_hashes(list),
    ensures
        list_hashes(hashes_json(list)) == Ok::<Seq<Seq<u8>>, ValueError>(list),
    decreases list.len(),
{
    if list.len() > 0 {
        let front = list.drop_last();
        assert(all_hashes(front)) by {
            assert forall|i: int| 0 <= i < front.len() implies (#[trigger] front[i]).len()
                == 32 by {
                assert(front[i] == list[i]);
            }
        }
        lemma_texts_are_hashes(front);
        assert(hashes_json(list).drop_last() =~= hashes_json(front));
        assert(front.push(list.last()) =~= list);
        assert(list[list.len() - 1].len() == 32);
        hash_text_reads_back(list.last());
        assert(json_hash(hashes_json(list).last()) == Ok::<Seq<u8>, ValueError>(list.last()));
    } else {
        assert(list =~= Seq::empty());
    }
}

/// A transfer that the RPC service reports as an object of its fields, however that
/// is written, is read as it was reported.
pub proof fn reported_transfer_is_read(
    symbols: Seq<Seq<char>>,
    start_index: u64,
    output_leaves: Seq<Seq<u8>>,
    root: Seq<u8>,
    list_text: Seq<char>,
    text: Seq<char>,
)
    requires
        !symbols.contains("deposit"@),
        !symbols.contains("withdraw"@),
        symbols.contains("transfer"@),
        all_hashes(output_leaves),
        root.len() == 32,
    ensures
        json_event(
            symbols,
            JsonTree::Object(
                seq![
                    ("output_leaves"@, JsonTree::Array(hashes_json(output_leaves), list_text)),
                    ("root"@, hash_json(root)),
                    ("start_index"@, number_json(start_index)),
                ],
                text,
            ),
        ) == Ok::<Option<TreeEvent>, FieldFault>(
            Some(TreeEvent::Transfer { start_index, output_leaves, root }),
        ),
{
    let (a, b, c) = (
        ("output_leaves"@, JsonTree::Array(hashes_json(output_leaves), list_text)),
        ("root"@, hash_json(root)),
        ("start_index"@, number_json(start_index)),
    );
    let members = seq![a, b, c];
    let tree = JsonTree::Object(members, text);
    lemma_names();
    lemma_three_members(a, b, c, "start_index"@);
    lemma_three_members(a, b, c, "output_leaves"@);
    lemma_three_members(a, b, c, "root"@);
    lemma_first_name(members, seq!["start_index"]);
    lemma_first_name(members, seq!["output_leaves"]);
    lemma_first_name(members, seq!["root"]);
    lemma_texts_are_hashes(output_leaves);
    hash_text_reads_back(root);
    assert(number_field(tree, seq!["start_index"]) == Ok::<u64, FieldFault>(start_index));
    assert(hashes_field(tree, seq!["output_leaves"]) == Ok::<Seq<Seq<u8>>, FieldFault>(
        output_leaves,
    ));
    assert(hash_field(tree, seq!["root"]) == Ok::<Seq<u8>, FieldFault>(root));
}

} // verus!
