//! What is written to the database and read from it.
use vstd::prelude::*;
use vstd::string::*;
use vstd::utf8::*;

use crate::encoding::{hex_bytes, hex_hash_value, hex_text, HexHashFault, TreeHash};
use crate::hash_laws::{digit_value, lemma_ascii_bytes, lemma_writes_hex, writes_hex};
use crate::state_store::{
    be_bytes, event_key, event_key_bytes, leaf_key, leaf_key_bytes, meta_key, rebuilt_leaf,
    write_views, LeafReply, LeafReplyView, Lookup, OpenedStore, PersistentTreeStore, StoreError, StoreFault,
    StoreWrite, StoredDatum, TreePirPersistentMetadata, TreeRebuild,
};
use crate::text::{bytes_before, without_prefixes};

verus! {

/// A new state is of the contract, holds no leaves, and has indexed up to the ledger
/// before the one to start from. It cannot be made without a ledger to start from.
pub proof fn new_state_starts_before_its_ledger(
    contract_id: String,
    start_ledger: Option<u64>,
    out: Result<OpenedStore, StoreError>,
)
    requires
        call_ensures(
            PersistentTreeStore::load_or_create,
            (None::<TreePirPersistentMetadata>, contract_id, start_ledger),
            out,
        ),
    ensures
        match start_ledger {
            None => out is Err,
            Some(start) => out matches Ok(OpenedStore::Created(store)) && {
                &&& forall|count: u64| #[trigger]
                    call_ensures(PersistentTreeStore::leaf_count, (&store,), count) ==> count == 0
                &&& forall|ledger: u64| #[trigger]
                    call_ensures(PersistentTreeStore::last_indexed_ledger, (&store,), ledger)
                        ==> ledger == if start > 0 {
                        start - 1
                    } else {
                        0
                    }
                &&& forall|write: StoreWrite| #[trigger]
                    call_ensures(PersistentTreeStore::save, (&store,), write) ==> (
                    write.value matches StoredDatum::Metadata(saved) && {
                        &&& saved.version == 1
                        &&& saved.contract_id@ == contract_id@
                        &&& saved.start_ledger == start
                        &&& saved.leaf_count == 0
                    })
            },
        },
{
}

/// A stored state is opened as it was stored, by the contract that it belongs to, whatever
/// ledger is to be started from; that of another contract or another version is refused.
pub proof fn stored_state_is_opened_as_it_was(
    stored: TreePirPersistentMetadata,
    contract_id: String,
    start_ledger: Option<u64>,
    out: Result<OpenedStore, StoreError>,
)
    requires
        call_ensures(
            PersistentTreeStore::load_or_create,
            (Some(stored), contract_id, start_ledger),
            out,
        ),
    ensures
        out is Ok <==> stored.version == 1 && stored.contract_id@ == contract_id@,
        out matches Ok(opened) ==> (opened matches OpenedStore::Existing(store) && {
            &&& forall|count: u64| #[trigger]
                call_ensures(PersistentTreeStore::leaf_count, (&store,), count) ==> count
                    == stored.leaf_count
            &&& forall|ledger: u64| #[trigger]
                call_ensures(PersistentTreeStore::last_indexed_ledger, (&store,), ledger)
                    ==> ledger == stored.last_indexed_ledger
            &&& forall|write: StoreWrite| #[trigger]
                call_ensures(PersistentTreeStore::save, (&store,), write) ==> (
                write.value matches StoredDatum::Metadata(saved) && saved@ == stored@)
        }),
{
}

/// The writes put a leaf under its key, with all that is known of it.
pub open spec fn writes_leaf(
    writes: Seq<StoreWrite>,
    index: u64,
    leaf: Seq<u8>,
    event_id: Seq<char>,
    ledger: u64,
    source: Seq<char>,
) -> bool {
    &&& writes[0].key@ == leaf_key_bytes(index)
    &&& writes[0].value matches StoredDatum::Leaf(stored) && {
        &&& stored.index == index
        &&& stored.leaf_hex@ == hex_text(leaf)
        &&& stored.event_id@ == event_id
        &&& stored.ledger == ledger
        &&& stored.source@ == source
    }
}

/// A leaf is refused unless it is the next one, and passed over where its event is known.
/// For the next leaf of a new event are written, together, the leaf with all that is known
/// of it, the index of the leaf under its event, and the count of leaves, one more.
pub proof fn next_leaf_is_written(
    store: PersistentTreeStore,
    reply: Lookup,
    index: u64,
    leaf: TreeHash,
    event_id: &str,
    ledger: u64,
    source: &str,
    count: u64,
    saved: StoreWrite,
    out: Result<Option<Vec<StoreWrite>>, StoreError>,
)
    requires
        call_ensures(PersistentTreeStore::leaf_count, (&store,), count),
        call_ensures(PersistentTreeStore::save, (&store,), saved),
        call_ensures(
            PersistentTreeStore::append_leaf_record,
            (&store, reply, index, &leaf, event_id, ledger, source),
            out,
        ),
    ensures
        reply is Found ==> (out matches Ok(writes) && writes is None),
        !(reply is Found) && index != count ==> out is Err,
        !(reply is Found) && index == count ==> (out matches Ok(Some(writes)) && {
            &&& writes@.len() == 3
            &&& writes_leaf(writes@, index, leaf@, event_id@, ledger, source@)
            &&& writes@[1].key@ == event_key_bytes(event_id@)
            &&& writes@[1].value matches StoredDatum::Index(bytes) && bytes@.len() == 8 && be_value(
                bytes@,
            ) == index
            &&& writes@[2].key@ == saved.key@
            &&& writes@[2].value matches StoredDatum::Metadata(next) && (
            saved.value matches StoredDatum::Metadata(now) && {
                &&& next.version == now.version
                &&& next.contract_id@ == now.contract_id@
                &&& next.start_ledger == now.start_ledger
                &&& next.last_indexed_ledger == now.last_indexed_ledger
                &&& count < u64::MAX ==> next.leaf_count == count + 1
            })
        }),
{
    if !(reply is Found) && index == count {
        let writes = out->Ok_0->0;
        let views = write_views(writes@);
        assert(views.len() == 3);
        assert(views[0] == writes@[0]@);
        assert(views[1] == writes@[1]@);
        assert(views[2] == writes@[2]@);
        reveal_with_fuel(byte_span, 9);
        lemma_be_value(index as nat, 8);
    }
}

/// The number that bytes write in base 256, the highest byte first.
pub open spec fn be_value(bytes: Seq<u8>) -> nat
    decreases bytes.len(),
{
    if bytes.len() == 0 {
        0
    } else {
        256 * be_value(bytes.drop_last()) + bytes.last() as nat
    }
}

/// How many numbers `len` bytes can write.
pub open spec fn byte_span(len: nat) -> nat
    decreases len,
{
    if len == 0 {
        1
    } else {
        256 * byte_span((len - 1) as nat)
    }
}

proof fn lemma_be_value(n: nat, len: nat)
    requires
        n < byte_span(len),
    ensures
        be_bytes(n, len).len() == len,
        be_value(be_bytes(n, len)) == n,
    decreases len,
{
    if len > 0 {
        lemma_be_value(n / 256, (len - 1) as nat);
        let bytes = be_bytes(n, len);
        assert(bytes.drop_last() =~= be_bytes(n / 256, (len - 1) as nat));
        assert(bytes.last() == (n % 256) as u8);
    }
}

proof fn lemma_be_order(a: Seq<u8>, b: Seq<u8>)
    requires
        a.len() == b.len(),
        be_value(a) < be_value(b),
    ensures
        bytes_before(a, b),
    decreases a.len(),
{
    if a.len() > 0 {
        let (x, y) = (a.drop_last(), b.drop_last());
        if be_value(x) < be_value(y) {
            lemma_be_order(x, y);
            lemma_before_longer(x, y, a.last(), b.last());
        } else {
            if be_value(y) < be_value(x) {
                assert(be_value(b) < be_value(a));
            }
            lemma_be_same(x, y);
            lemma_before_last(x, a.last(), b.last());
        }
        assert(x.push(a.last()) =~= a);
        assert(y.push(b.last()) =~= b);
    }
}

proof fn lemma_be_same(a: Seq<u8>, b: Seq<u8>)
    requires
        a.len() == b.len(),
        be_value(a) == be_value(b),
    ensures
        a == b,
    decreases a.len(),
{
    if a.len() > 0 {
        lemma_be_same(a.drop_last(), b.drop_last());
        assert(a =~= a.drop_last().push(a.last()));
        assert(b =~= b.drop_last().push(b.last()));
    } else {
        assert(a =~= b);
    }
}

proof fn lemma_before_longer(a: Seq<u8>, b: Seq<u8>, x: u8, y: u8)
    requires
        a.len() == b.len(),
        bytes_before(a, b),
    ensures
        bytes_before(a.push(x), b.push(y)),
    decreases a.len(),
{
    let (s, t) = (a.push(x), b.push(y));
    if a.len() > 0 && a[0] == b[0] {
        let (u, v) = (a.subrange(1, a.len() as int), b.subrange(1, b.len() as int));
        lemma_before_longer(u, v, x, y);
        assert(s.subrange(1, s.len() as int) =~= u.push(x));
        assert(t.subrange(1, t.len() as int) =~= v.push(y));
    }
}

proof fn lemma_before_last(a: Seq<u8>, x: u8, y: u8)
    requires
        x < y,
    ensures
        bytes_before(a.push(x), a.push(y)),
    decreases a.len(),
{
    let (s, t) = (a.push(x), a.push(y));
    if a.len() > 0 {
        let u = a.subrange(1, a.len() as int);
        lemma_before_last(u, x, y);
        assert(s.subrange(1, s.len() as int) =~= u.push(x));
        assert(t.subrange(1, t.len() as int) =~= u.push(y));
    }
}

proof fn lemma_before_prefix(front: Seq<u8>, a: Seq<u8>, b: Seq<u8>)
    requires
        bytes_before(a, b),
    ensures
        bytes_before(front + a, front + b),
    decreases front.len(),
{
    let (s, t) = (front + a, front + b);
    if front.len() == 0 {
        assert(s =~= a);
        assert(t =~= b);
    } else {
        let u = front.subrange(1, front.len() as int);
        lemma_before_prefix(u, a, b);
        assert(s.subrange(1, s.len() as int) =~= u + a);
        assert(t.subrange(1, t.len() as int) =~= u + b);
    }
}

/// The key of a leaf is `leaf/` and its index in eight bytes, the highest first; that of an
/// event is `event/` and its id; that of the metadata is `meta`. Leaves stand in the
/// database in the order of their indices.
pub proof fn keys_are_as_stored(
    index: u64,
    later: u64,
    event_id: &str,
    leaf: Vec<u8>,
    later_leaf: Vec<u8>,
    event: Vec<u8>,
    meta: Vec<u8>,
)
    requires
        call_ensures(leaf_key, (index,), leaf),
        call_ensures(leaf_key, (later,), later_leaf),
        call_ensures(event_key, (event_id,), event),
        call_ensures(meta_key, (), meta),
    ensures
        leaf@.len() == 13,
        leaf@.subrange(0, 5) == encode_utf8("leaf/"@),
        be_value(leaf@.subrange(5, 13)) == index,
        event@ == encode_utf8("event/"@) + encode_utf8(event_id@),
        meta@ == encode_utf8("meta"@),
        index < later ==> bytes_before(leaf@, later_leaf@),
{
    reveal_strlit("leaf/");
    is_ascii_chars_encode_utf8("leaf/"@);
    reveal_with_fuel(byte_span, 9);
    lemma_be_value(index as nat, 8);
    lemma_be_value(later as nat, 8);
    assert(leaf@.subrange(0, 5) =~= encode_utf8("leaf/"@));
    assert(leaf@.subrange(5, 13) =~= be_bytes(index as nat, 8));
    if index < later {
        let (a, b) = (be_bytes(index as nat, 8), be_bytes(later as nat, 8));
        lemma_be_order(a, b);
        lemma_before_prefix(encode_utf8("leaf/"@), a, b);
    }
}

/// Text without the `0x` in front is hexadecimal digits.
pub open spec fn stores_hash(text: Seq<char>, hash: Seq<u8>) -> bool {
    writes_hex(without_prefixes(text, "0x"@), hash)
}

/// A stored hash is read if and only if the text writes it, 64 hexadecimal digits.
pub proof fn stored_hash_is_read(text: Seq<char>, hash: Seq<u8>)
    ensures
        hex_hash_value(text) == Ok::<Seq<u8>, HexHashFault>(hash) <==> hash.len() == 32
            && stores_hash(text, hash),
{
    let digits = without_prefixes(text, "0x"@);
    if hash.len() == 32 && stores_hash(text, hash) {
        lemma_writes_hex(digits, hash);
    }
    if hex_hash_value(text) == Ok::<Seq<u8>, HexHashFault>(hash) {
        lemma_reads_hex(digits, hash);
    }
}

/// Digits that are read write what is read of them.
proof fn lemma_reads_hex(digits: Seq<char>, bytes: Seq<u8>)
    requires
        hex_bytes(encode_utf8(digits)) == Some(bytes),
    ensures
        writes_hex(digits, bytes),
{
    let s = encode_utf8(digits);
    assert forall|i: int| 0 <= i < s.len() implies (#[trigger] s[i]) < 128 by {
        assert(crate::encoding::hex_value(s[i]) is Some);
    }
    lemma_ascii_bytes(digits);
    is_ascii_chars_encode_utf8(digits);
    assert(bytes.len() == s.len() / 2);
    assert forall|i: int| 0 <= i < digits.len() implies digit_value(#[trigger] digits[i]) == Some(
        if i % 2 == 0 {
            bytes[i / 2] as int / 16
        } else {
            bytes[i / 2] as int % 16
        },
    ) by {
        let k = i / 2;
        assert(digits[2 * k] as u8 == s[2 * k]);
        assert(digits[2 * k + 1] as u8 == s[2 * k + 1]);
        assert(crate::encoding::hex_value(s[2 * k]) is Some);
        assert(crate::encoding::hex_value(s[2 * k + 1]) is Some);
        assert(bytes[k] == (16 * crate::encoding::hex_value(s[2 * k])->0
            + crate::encoding::hex_value(s[2 * k + 1])->0) as u8);
        assert(digit_value(digits[2 * k]) == crate::encoding::hex_value(s[2 * k]));
        assert(digit_value(digits[2 * k + 1]) == crate::encoding::hex_value(s[2 * k + 1]));
    }
}

/// A leaf is given back to the tree if and only if it is stored at the index that is asked
/// for, says so itself, is the next one of the tree, and its text is a hash; what is given
/// back is that hash.
pub proof fn leaf_is_given_back(
    index: u64,
    reply: LeafReplyView,
    tree_leaf_count: u64,
    hash: Seq<u8>,
)
    ensures
        rebuilt_leaf(index, reply, tree_leaf_count) == Ok::<Seq<u8>, StoreFault>(hash) <==> (
        reply matches LeafReplyView::Leaf(leaf) && leaf.index == index && index == tree_leaf_count
            && hash.len() == 32 && stores_hash(leaf.leaf_hex, hash)),
{
    match reply {
        LeafReplyView::Leaf(leaf) => {
            stored_hash_is_read(leaf.leaf_hex, hash);
        },
        _ => {},
    }
}

/// Rebuilding asks for each leaf that is counted, from the first on.
pub proof fn rebuilding_asks_for_each_leaf(
    store: PersistentTreeStore,
    count: u64,
    rebuild: TreeRebuild,
    key: Option<Vec<u8>>,
    first: Vec<u8>,
)
    requires
        call_ensures(PersistentTreeStore::leaf_count, (&store,), count),
        call_ensures(PersistentTreeStore::build_tree, (&store,), rebuild),
        call_ensures(TreeRebuild::next_key, (&rebuild,), key),
        call_ensures(leaf_key, (0u64,), first),
    ensures
        count == 0 ==> key is None,
        count > 0 ==> (key matches Some(asked) && asked@ == first@),
{
}

/// Setting the last indexed ledger changes that and nothing else.
pub proof fn indexed_ledger_is_set(
    store: &mut PersistentTreeStore,
    ledger: u64,
    now: u64,
    counts: (u64, u64),
    saved: (StoreWrite, StoreWrite),
)
    requires
        call_ensures(PersistentTreeStore::set_last_indexed_ledger, (store, ledger), ()),
        call_ensures(PersistentTreeStore::last_indexed_ledger, (&*final(store),), now),
        call_ensures(PersistentTreeStore::leaf_count, (&*old(store),), counts.0),
        call_ensures(PersistentTreeStore::leaf_count, (&*final(store),), counts.1),
        call_ensures(PersistentTreeStore::save, (&*old(store),), saved.0),
        call_ensures(PersistentTreeStore::save, (&*final(store),), saved.1),
    ensures
        now == ledger,
        counts.0 == counts.1,
        saved.0.key@ == saved.1.key@,
        saved.0.value matches StoredDatum::Metadata(before) && (
        saved.1.value matches StoredDatum::Metadata(after) && {
            &&& after.last_indexed_ledger == ledger
            &&& after.version == before.version
            &&& after.contract_id@ == before.contract_id@
            &&& after.start_ledger == before.start_ledger
            &&& after.leaf_count == before.leaf_count
        }),
{
}

/// Counting a leaf that was written adds one to the count and changes nothing else.
pub proof fn written_leaf_is_counted(
    store: &mut PersistentTreeStore,
    counts: (u64, u64),
    ledgers: (u64, u64),
)
    requires
        call_ensures(PersistentTreeStore::leaf_written, (store,), ()),
        call_ensures(PersistentTreeStore::leaf_count, (&*old(store),), counts.0),
        call_ensures(PersistentTreeStore::leaf_count, (&*final(store),), counts.1),
        call_ensures(PersistentTreeStore::last_indexed_ledger, (&*old(store),), ledgers.0),
        call_ensures(PersistentTreeStore::last_indexed_ledger, (&*final(store),), ledgers.1),
        counts.0 < u64::MAX,
    ensures
        counts.1 == counts.0 + 1,
        ledgers.0 == ledgers.1,
{
}

/// An event is known if and only if the database found its key: where the database failed,
/// it is not.
pub proof fn events_are_known_where_they_are_found(
    store: PersistentTreeStore,
    reply: Lookup,
    known: bool,
)
    requires
        call_ensures(PersistentTreeStore::has_event_id, (&store, reply), known),
    ensures
        known <==> reply == Lookup::Found,
{
}

/// Rebuilding goes from each leaf to the next, up to the last that is counted; a leaf that
/// is refused is asked for again.
pub proof fn rebuilding_goes_on_leaf_by_leaf(
    rebuild: &mut TreeRebuild,
    reply: LeafReply,
    tree_leaf_count: u64,
    out: Result<TreeHash, StoreError>,
    keys: (Option<Vec<u8>>, Option<Vec<u8>>),
    index: u64,
    count: u64,
)
    requires
        old(rebuild)@.index == index,
        old(rebuild)@.leaf_count == count,
        call_ensures(TreeRebuild::next_key, (&*old(rebuild),), keys.0),
        call_ensures(TreeRebuild::accept, (rebuild, reply, tree_leaf_count), out),
        call_ensures(TreeRebuild::next_key, (&*final(rebuild),), keys.1),
        index < count,
    ensures
        keys.0 matches Some(key) && key@ == leaf_key_bytes(index),
        out is Ok && index + 1 < count ==> (keys.1 matches Some(key) && key@ == leaf_key_bytes(
            (index + 1) as u64,
        )),
        out is Ok && index + 1 == count ==> keys.1 is None,
        out is Err ==> (keys.1 matches Some(key) && key@ == leaf_key_bytes(index)),
        out matches Ok(leaf) ==> (reply@ matches LeafReplyView::Leaf(stored) && stored.index == index
            && index == tree_leaf_count && stores_hash(stored.leaf_hex, leaf@)),
{
    match out {
        Ok(leaf) => leaf_is_given_back(index, reply@, tree_leaf_count, leaf@),
        Err(_) => {},
    }
}

} // verus!
