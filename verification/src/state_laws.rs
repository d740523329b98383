//! What holds of the persistent state as a whole.
use vstd::prelude::*;
use vstd::string::*;
use vstd::utf8::*;

use crate::encoding::stored_hash_reads_back;
use crate::state_store::{
    append_writes, be_bytes, event_key_bytes, leaf_key_bytes, meta_key_bytes, opened, rebuilt_leaf,
    stored_leaf, with_next_leaf, LeafReplyView, MetadataView, StoreFault, StoredValue,
};

verus! {

/// A database after writes, the last write to a key counting.
pub open spec fn put_all(
    db: Map<Seq<u8>, StoredValue>,
    writes: Seq<(Seq<u8>, StoredValue)>,
) -> Map<Seq<u8>, StoredValue>
    decreases writes.len(),
{
    if writes.len() == 0 {
        db
    } else {
        put_all(db, writes.drop_last()).insert(writes.last().0, writes.last().1)
    }
}

/// A leaf, and where it came from.
pub struct LeafRecord {
    pub leaf: Seq<u8>,
    pub event_id: Seq<char>,
    pub ledger: u64,
    pub source: Seq<char>,
}

/// The database holds a leaf at an index.
pub open spec fn has_leaf(db: Map<Seq<u8>, StoredValue>, index: u64, record: LeafRecord) -> bool {
    &&& record.leaf.len() == 32
    &&& db.contains_key(leaf_key_bytes(index))
    &&& db[leaf_key_bytes(index)] == StoredValue::Leaf(
        stored_leaf(index, record.leaf, record.event_id, record.ledger, record.source),
    )
}

/// The database holds the event of the leaf at an index.
pub open spec fn has_event(db: Map<Seq<u8>, StoredValue>, index: u64, record: LeafRecord) -> bool {
    &&& db.contains_key(event_key_bytes(record.event_id))
    &&& db[event_key_bytes(record.event_id)] == StoredValue::Index(be_bytes(index as nat, 8))
}

/// The database holds an event.
pub open spec fn knows_event(db: Map<Seq<u8>, StoredValue>, event_id: Seq<char>) -> bool {
    db.contains_key(event_key_bytes(event_id))
}

/// One of the records is of an event.
pub open spec fn recorded(records: Seq<LeafRecord>, event_id: Seq<char>) -> bool {
    exists|i: int| 0 <= i < records.len() && (#[trigger] records[i]).event_id == event_id
}

/// The database holds exactly these leaves, in this order, and knows their events
/// and no others. The ledger in the saved metadata may be older.
pub open spec fn holds(
    db: Map<Seq<u8>, StoredValue>,
    metadata: MetadataView,
    records: Seq<LeafRecord>,
) -> bool {
    &&& metadata.leaf_count == records.len()
    &&& db.contains_key(meta_key_bytes())
    &&& db[meta_key_bytes()] matches StoredValue::Metadata(saved) && saved == (MetadataView {
        last_indexed_ledger: saved.last_indexed_ledger,
        ..metadata
    })
    &&& forall|i: u64| i < records.len() ==> #[trigger] has_leaf(db, i, records[i as int])
    &&& forall|i: u64| i < records.len() ==> #[trigger] has_event(db, i, records[i as int])
    &&& forall|id: Seq<char>| #[trigger] knows_event(db, id) ==> recorded(records, id)
}

/// How many numbers `len` bytes can write.
spec fn byte_range(len: nat) -> nat
    decreases len,
{
    if len == 0 {
        1
    } else {
        256 * byte_range((len - 1) as nat)
    }
}

proof fn lemma_be_bytes_injective(n: nat, m: nat, len: nat)
    requires
        n < byte_range(len),
        m < byte_range(len),
        be_bytes(n, len) == be_bytes(m, len),
    ensures
        n == m,
    decreases len,
{
    if len > 0 {
        let (x, y) = (be_bytes(n / 256, (len - 1) as nat), be_bytes(m / 256, (len - 1) as nat));
        let s = be_bytes(n, len);
        assert(x =~= s.drop_last());
        assert(y =~= s.drop_last());
        assert(s.last() == (n % 256) as u8);
        assert(s.last() == (m % 256) as u8);
        lemma_be_bytes_injective(n / 256, m / 256, (len - 1) as nat);
    }
}

/// The keys of leaves, events and the metadata never meet, and no two leaves and
/// no two events share a key.
pub proof fn keys_are_distinct(index: u64, other: u64, id: Seq<char>, other_id: Seq<char>)
    ensures
        leaf_key_bytes(index) != event_key_bytes(id),
        leaf_key_bytes(index) != meta_key_bytes(),
        event_key_bytes(id) != meta_key_bytes(),
        leaf_key_bytes(index) == leaf_key_bytes(other) ==> index == other,
        event_key_bytes(id) == event_key_bytes(other_id) ==> id == other_id,
{
    reveal_strlit("leaf/");
    reveal_strlit("event/");
    reveal_strlit("meta");
    is_ascii_chars_encode_utf8("leaf/"@);
    is_ascii_chars_encode_utf8("event/"@);
    is_ascii_chars_encode_utf8("meta"@);
    assert(leaf_key_bytes(index)[0] == 'l' as u8);
    assert(event_key_bytes(id)[0] == 'e' as u8);
    assert(meta_key_bytes()[0] == 'm' as u8);
    if leaf_key_bytes(index) == leaf_key_bytes(other) {
        let s = leaf_key_bytes(index);
        assert(be_bytes(index as nat, 8) =~= s.subrange(5, s.len() as int));
        assert(be_bytes(other as nat, 8) =~= s.subrange(5, s.len() as int));
        reveal_with_fuel(byte_range, 9);
        lemma_be_bytes_injective(index as nat, other as nat, 8);
    }
    if event_key_bytes(id) == event_key_bytes(other_id) {
        let s = event_key_bytes(id);
        assert(encode_utf8(id) =~= s.subrange(6, s.len() as int));
        assert(encode_utf8(other_id) =~= s.subrange(6, s.len() as int));
        encode_utf8_decode_utf8(id);
        encode_utf8_decode_utf8(other_id);
    }
}

/// A new state, once saved, holds no leaves.
pub proof fn new_state_is_empty(contract_id: Seq<char>, start_ledger: u64)
    ensures
        opened(None, contract_id, Some(start_ledger)) matches Ok((metadata, created)) && created
            && holds(
            put_all(
                Map::empty(),
                seq![(meta_key_bytes(), StoredValue::Metadata(metadata))],
            ),
            metadata,
            Seq::empty(),
        ),
{
    let metadata = opened(None, contract_id, Some(start_ledger))->Ok_0.0;
    let writes = seq![(meta_key_bytes(), StoredValue::Metadata(metadata))];
    reveal_with_fuel(put_all, 2);
    assert(writes.drop_last() =~= Seq::empty());
    let db = put_all(Map::empty(), writes);
    assert forall|id: Seq<char>| #[trigger] knows_event(db, id) implies recorded(
        Seq::empty(),
        id,
    ) by {
        keys_are_distinct(0, 0, id, id);
    }
}

/// The database after the three writes for a leaf.
proof fn lemma_three_writes(
    db: Map<Seq<u8>, StoredValue>,
    a: (Seq<u8>, StoredValue),
    b: (Seq<u8>, StoredValue),
    c: (Seq<u8>, StoredValue),
)
    ensures
        put_all(db, seq![a, b, c]) == db.insert(a.0, a.1).insert(b.0, b.1).insert(c.0, c.1),
{
    reveal_with_fuel(put_all, 4);
    assert(seq![a, b, c].drop_last() =~= seq![a, b]);
    assert(seq![a, b].drop_last() =~= seq![a]);
    assert(seq![a].drop_last() =~= Seq::empty());
}

/// Recording the next leaf, with an event that is not known, adds exactly that
/// leaf: those before it stay as they were.
pub proof fn appending_adds_one_leaf(
    db: Map<Seq<u8>, StoredValue>,
    metadata: MetadataView,
    records: Seq<LeafRecord>,
    record: LeafRecord,
)
    requires
        holds(db, metadata, records),
        !knows_event(db, record.event_id),
        record.leaf.len() == 32,
        metadata.leaf_count < u64::MAX,
    ensures
        append_writes(
            metadata,
            false,
            metadata.leaf_count,
            record.leaf,
            record.event_id,
            record.ledger,
            record.source,
        ) matches Ok(Some(writes)) && holds(
            put_all(db, writes),
            with_next_leaf(metadata),
            records.push(record),
        ),
{
    let index = metadata.leaf_count;
    let stored = stored_leaf(index, record.leaf, record.event_id, record.ledger, record.source);
    let a = (leaf_key_bytes(index), StoredValue::Leaf(stored));
    let b = (event_key_bytes(record.event_id), StoredValue::Index(be_bytes(index as nat, 8)));
    let c = (meta_key_bytes(), StoredValue::Metadata(with_next_leaf(metadata)));
    lemma_three_writes(db, a, b, c);
    let after = put_all(db, seq![a, b, c]);
    let all = records.push(record);
    keys_are_distinct(index, index, record.event_id, record.event_id);
    assert forall|i: u64| i < all.len() implies #[trigger] has_leaf(after, i, all[i as int]) by {
        keys_are_distinct(i, index, record.event_id, record.event_id);
        if i < index {
            assert(has_leaf(db, i, records[i as int]));
        }
    }
    assert forall|i: u64| i < all.len() implies #[trigger] has_event(after, i, all[i as int]) by {
        if i < index {
            assert(has_event(db, i, records[i as int]));
            assert(knows_event(db, records[i as int].event_id));
            keys_are_distinct(index, index, records[i as int].event_id, record.event_id);
        }
    }
    assert forall|id: Seq<char>| #[trigger] knows_event(after, id) implies recorded(all, id) by {
        keys_are_distinct(index, index, id, record.event_id);
        if event_key_bytes(id) == event_key_bytes(record.event_id) {
            assert(all[index as int].event_id == id);
        } else {
            assert(knows_event(db, id));
            let i = choose|i: int| 0 <= i < records.len() && (#[trigger] records[i]).event_id == id;
            assert(all[i].event_id == id);
        }
    }
}

/// The events that the database knows are those of the recorded leaves.
pub proof fn known_events_are_recorded(
    db: Map<Seq<u8>, StoredValue>,
    metadata: MetadataView,
    records: Seq<LeafRecord>,
    event_id: Seq<char>,
)
    requires
        holds(db, metadata, records),
    ensures
        knows_event(db, event_id) == recorded(records, event_id),
{
    if recorded(records, event_id) {
        let i = choose|i: int|
            0 <= i < records.len() && (#[trigger] records[i]).event_id == event_id;
        assert(has_event(db, i as u64, records[(i as u64) as int]));
    }
}

/// The event of a recorded leaf is known, and a leaf of a known event is not
/// recorded again.
pub proof fn recorded_events_are_not_recorded_again(
    db: Map<Seq<u8>, StoredValue>,
    metadata: MetadataView,
    records: Seq<LeafRecord>,
    i: int,
    index: u64,
    leaf: Seq<u8>,
    ledger: u64,
    source: Seq<char>,
)
    requires
        holds(db, metadata, records),
        0 <= i < records.len(),
    ensures
        knows_event(db, records[i].event_id),
        append_writes(
            metadata,
            knows_event(db, records[i].event_id),
            index,
            leaf,
            records[i].event_id,
            ledger,
            source,
        ) == Ok::<Option<Seq<(Seq<u8>, StoredValue)>>, StoreFault>(None),
{
    assert(has_event(db, i as u64, records[(i as u64) as int]));
}

/// No event has two leaves.
pub proof fn recorded_events_are_distinct(
    db: Map<Seq<u8>, StoredValue>,
    metadata: MetadataView,
    records: Seq<LeafRecord>,
    i: int,
    j: int,
)
    requires
        holds(db, metadata, records),
        0 <= i < records.len(),
        0 <= j < records.len(),
        records[i].event_id == records[j].event_id,
    ensures
        i == j,
{
    assert(has_event(db, i as u64, records[(i as u64) as int]));
    assert(has_event(db, j as u64, records[(j as u64) as int]));
    reveal_with_fuel(byte_range, 9);
    lemma_be_bytes_injective(i as nat, j as nat, 8);
}

/// What the database says when it is asked for a leaf.
pub open spec fn leaf_reply(db: Map<Seq<u8>, StoredValue>, index: u64) -> LeafReplyView {
    if db.contains_key(leaf_key_bytes(index)) {
        match db[leaf_key_bytes(index)] {
            StoredValue::Leaf(leaf) => LeafReplyView::Leaf(leaf),
            _ => LeafReplyView::Unreadable(Seq::empty()),
        }
    } else {
        LeafReplyView::Missing
    }
}

/// The leaves of a tree that is rebuilt up to `n` leaves.
pub open spec fn rebuilt_leaves(db: Map<Seq<u8>, StoredValue>, n: nat) -> Result<
    Seq<Seq<u8>>,
    StoreFault,
>
    decreases n,
{
    if n == 0 {
        Ok(Seq::empty())
    } else {
        let index = (n - 1) as u64;
        match rebuilt_leaves(db, (n - 1) as nat) {
            Ok(front) => match rebuilt_leaf(index, leaf_reply(db, index), index) {
                Ok(leaf) => Ok(front.push(leaf)),
                Err(error) => Err(error),
            },
            Err(error) => Err(error),
        }
    }
}

/// The leaves of records.
pub open spec fn leaves_of(records: Seq<LeafRecord>) -> Seq<Seq<u8>> {
    records.map_values(|record: LeafRecord| record.leaf)
}

proof fn lemma_rebuilt(
    db: Map<Seq<u8>, StoredValue>,
    metadata: MetadataView,
    records: Seq<LeafRecord>,
    n: nat,
)
    requires
        holds(db, metadata, records),
        n <= records.len(),
    ensures
        rebuilt_leaves(db, n) == Ok::<Seq<Seq<u8>>, StoreFault>(
            leaves_of(records).subrange(0, n as int),
        ),
    decreases n,
{
    if n == 0 {
        assert(leaves_of(records).subrange(0, 0) =~= Seq::empty());
    } else {
        lemma_rebuilt(db, metadata, records, (n - 1) as nat);
        let index = (n - 1) as u64;
        assert(has_leaf(db, index, records[index as int]));
        stored_hash_reads_back(records[index as int].leaf);
        assert(leaves_of(records).subrange(0, n as int) =~= leaves_of(records).subrange(
            0,
            n - 1,
        ).push(records[n - 1].leaf));
    }
}

/// Rebuilding the tree gives back the recorded leaves, in the order in which they
/// were recorded.
pub proof fn rebuilding_gives_back_leaves(
    db: Map<Seq<u8>, StoredValue>,
    metadata: MetadataView,
    records: Seq<LeafRecord>,
)
    requires
        holds(db, metadata, records),
    ensures
        rebuilt_leaves(db, metadata.leaf_count as nat) == Ok::<Seq<Seq<u8>>, StoreFault>(
            leaves_of(records),
        ),
{
    lemma_rebuilt(db, metadata, records, records.len());
    assert(leaves_of(records).subrange(0, records.len() as int) =~= leaves_of(records));
}

/// Saving the state changes nothing but the saved metadata, and a saved state is
/// opened again as it was, by the contract that it belongs to and by no other.
pub proof fn saved_state_is_opened_again(
    db: Map<Seq<u8>, StoredValue>,
    metadata: MetadataView,
    records: Seq<LeafRecord>,
    contract_id: Seq<char>,
    start_ledger: Option<u64>,
)
    requires
        holds(db, metadata, records),
        metadata.version == 1,
    ensures
        ({
            let saved = put_all(db, seq![(meta_key_bytes(), StoredValue::Metadata(metadata))]);
            &&& holds(saved, metadata, records)
            &&& saved[meta_key_bytes()] == StoredValue::Metadata(metadata)
        }),
        opened(Some(metadata), contract_id, start_ledger) == if contract_id
            == metadata.contract_id {
            Ok::<(MetadataView, bool), StoreFault>((metadata, false))
        } else {
            Err(
                StoreFault::WrongContract {
                    stored: metadata.contract_id,
                    configured: contract_id,
                },
            )
        },
{
    let writes = seq![(meta_key_bytes(), StoredValue::Metadata(metadata))];
    reveal_with_fuel(put_all, 2);
    assert(writes.drop_last() =~= Seq::empty());
    let saved = put_all(db, writes);
    assert forall|i: u64| i < records.len() implies #[trigger] has_leaf(
        saved,
        i,
        records[i as int],
    ) by {
        assert(has_leaf(db, i, records[i as int]));
        keys_are_distinct(i, i, Seq::empty(), Seq::empty());
    }
    assert forall|i: u64| i < records.len() implies #[trigger] has_event(
        saved,
        i,
        records[i as int],
    ) by {
        assert(has_event(db, i, records[i as int]));
        keys_are_distinct(0, 0, records[i as int].event_id, Seq::empty());
    }
    assert forall|id: Seq<char>| #[trigger] knows_event(saved, id) implies recorded(
        records,
        id,
    ) by {
        keys_are_distinct(0, 0, id, id);
        assert(knows_event(db, id));
    }
}

} // verus!
