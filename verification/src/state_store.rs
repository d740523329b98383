//! The persistent state: which leaves were indexed, from which events, up to which
//! ledger.
//!
//! The state lives in a key-value database. This module says what is read from the
//! database and written to it; it does neither.
use vstd::prelude::*;
use vstd::string::*;
use vstd::utf8::*;

use crate::encoding::{
    decode_hash_hex, hex_hash_value, hex_of_hash, hex_text, HexHashError,
    HexHashFault, TreeHash,
};
use crate::text::{decimal, decimal_text, same_text};

verus! {

/// What is known of the indexed leaves, in the abstract.
pub struct MetadataView {
    pub version: u32,
    pub contract_id: Seq<char>,
    pub start_ledger: u64,
    pub last_indexed_ledger: u64,
    pub leaf_count: u64,
}

/// What is known of the indexed leaves.
#[derive(Debug, Clone)]
pub struct TreePirPersistentMetadata {
    pub version: u32,
    pub contract_id: String,
    pub start_ledger: u64,
    pub last_indexed_ledger: u64,
    pub leaf_count: u64,
}

impl View for TreePirPersistentMetadata {
    type V = MetadataView;

    open spec fn view(&self) -> MetadataView {
        MetadataView {
            version: self.version,
            contract_id: self.contract_id@,
            start_ledger: self.start_ledger,
            last_indexed_ledger: self.last_indexed_ledger,
            leaf_count: self.leaf_count,
        }
    }
}

impl TreePirPersistentMetadata {
    fn copy(&self) -> (out: Self)
        ensures
            out@ == self@,
    {
        TreePirPersistentMetadata {
            version: self.version,
            contract_id: self.contract_id.as_str().to_owned(),
            start_ledger: self.start_ledger,
            last_indexed_ledger: self.last_indexed_ledger,
            leaf_count: self.leaf_count,
        }
    }
}

/// A leaf as it is stored, in the abstract.
pub struct LeafView {
    pub index: u64,
    pub leaf_hex: Seq<char>,
    pub event_id: Seq<char>,
    pub ledger: u64,
    pub source: Seq<char>,
}

/// A leaf as it is stored.
#[derive(Debug, Clone)]
pub struct StoredLeaf {
    pub index: u64,
    pub leaf_hex: String,
    pub event_id: String,
    pub ledger: u64,
    pub source: String,
}

impl View for StoredLeaf {
    type V = LeafView;

    open spec fn view(&self) -> LeafView {
        LeafView {
            index: self.index,
            leaf_hex: self.leaf_hex@,
            event_id: self.event_id@,
            ledger: self.ledger,
            source: self.source@,
        }
    }
}

/// What the database holds under a key, in the abstract.
pub enum StoredValue {
    Metadata(MetadataView),
    Leaf(LeafView),
    Index(Seq<u8>),
}

/// What the database holds under a key.
#[derive(Debug)]
pub enum StoredDatum {
    Metadata(TreePirPersistentMetadata),
    Leaf(StoredLeaf),
    /// The index of a leaf.
    Index(Vec<u8>),
}

impl View for StoredDatum {
    type V = StoredValue;

    open spec fn view(&self) -> StoredValue {
        match *self {
            StoredDatum::Metadata(metadata) => StoredValue::Metadata(metadata@),
            StoredDatum::Leaf(leaf) => StoredValue::Leaf(leaf@),
            StoredDatum::Index(bytes) => StoredValue::Index(bytes@),
        }
    }
}

/// A value that is put under a key.
#[derive(Debug)]
pub struct StoreWrite {
    pub key: Vec<u8>,
    pub value: StoredDatum,
}

impl View for StoreWrite {
    type V = (Seq<u8>, StoredValue);

    open spec fn view(&self) -> (Seq<u8>, StoredValue) {
        (self.key@, self.value@)
    }
}

/// Writes in the abstract.
pub open spec fn write_views(list: Seq<StoreWrite>) -> Seq<(Seq<u8>, StoredValue)> {
    list.map_values(|write: StoreWrite| write@)
}

/// Why the state was refused, in the abstract.
pub enum StoreFault {
    UnsupportedVersion(u32),
    WrongContract { stored: Seq<char>, configured: Seq<char> },
    MissingStartLedger,
    IndexMismatch { next: u64, event: u64 },
    MissingLeaf(u64),
    UnreadableLeaf { index: u64, why: Seq<char> },
    KeyMismatch { key: u64, value: u64 },
    NotContiguous { next: u64, got: u64 },
    BadHash(HexHashFault),
}

impl StoreFault {
    /// The error in words.
    pub open spec fn text(self) -> Seq<char> {
        match self {
            StoreFault::UnsupportedVersion(version) => "unsupported state version "@ + decimal(
                version as nat,
            ),
            StoreFault::WrongContract { stored, configured } => "state DB belongs to contract "@
                + stored + ", config points to "@ + configured,
            StoreFault::MissingStartLedger =>
                "TREEPIR_START_LEDGER is required when state DB does not exist"@,
            StoreFault::IndexMismatch { next, event } => "persistent leaf index mismatch: next="@
                + decimal(next as nat) + ", event="@ + decimal(event as nat),
            StoreFault::MissingLeaf(index) => "missing stored leaf at index "@ + decimal(
                index as nat,
            ),
            StoreFault::UnreadableLeaf { index, why } => "failed to parse stored leaf at index "@
                + decimal(index as nat) + ": "@ + why,
            StoreFault::KeyMismatch { key, value } => "stored leaf key/index mismatch: key="@
                + decimal(key as nat) + ", value="@ + decimal(value as nat),
            StoreFault::NotContiguous { next, got } => "stored leaves are not contiguous: next="@
                + decimal(next as nat) + ", got="@ + decimal(got as nat),
            StoreFault::BadHash(why) => why.text(),
        }
    }
}

/// Why the state was refused.
#[derive(Debug)]
pub enum StoreError {
    /// The version of the stored state.
    UnsupportedVersion(u32),
    /// The stored state is that of another contract.
    WrongContract { stored: String, configured: String },
    /// There is no stored state, and no ledger to start from.
    MissingStartLedger,
    /// A leaf that is not the next one.
    IndexMismatch { next: u64, event: u64 },
    /// No leaf is stored at this index.
    MissingLeaf(u64),
    /// What is stored at this index was not read.
    UnreadableLeaf { index: u64, why: String },
    /// A leaf that is stored under the key of another.
    KeyMismatch { key: u64, value: u64 },
    /// A leaf that is not the next one of the tree.
    NotContiguous { next: u64, got: u64 },
    /// A leaf that is no hash.
    BadHash(HexHashError),
}

impl View for StoreError {
    type V = StoreFault;

    open spec fn view(&self) -> StoreFault {
        match *self {
            StoreError::UnsupportedVersion(version) => StoreFault::UnsupportedVersion(version),
            StoreError::WrongContract { stored, configured } => StoreFault::WrongContract {
                stored: stored@,
                configured: configured@,
            },
            StoreError::MissingStartLedger => StoreFault::MissingStartLedger,
            StoreError::IndexMismatch { next, event } => StoreFault::IndexMismatch { next, event },
            StoreError::MissingLeaf(index) => StoreFault::MissingLeaf(index),
            StoreError::UnreadableLeaf { index, why } => StoreFault::UnreadableLeaf {
                index,
                why: why@,
            },
            StoreError::KeyMismatch { key, value } => StoreFault::KeyMismatch { key, value },
            StoreError::NotContiguous { next, got } => StoreFault::NotContiguous { next, got },
            StoreError::BadHash(why) => StoreFault::BadHash(why@),
        }
    }
}

/// Two numbers, each behind a text.
fn two_numbers(first: &str, a: u64, second: &str, b: u64) -> (out: String)
    ensures
        out@ == first@ + decimal(a as nat) + second@ + decimal(b as nat),
{
    let mut out = first.to_owned();
    out.append(decimal_text(a).as_str());
    out.append(second);
    out.append(decimal_text(b).as_str());
    out
}

impl StoreError {
    pub fn message(&self) -> (out: String)
        ensures
            out@ == self@.text(),
    {
        match self {
            StoreError::UnsupportedVersion(version) => {
                let mut out = "unsupported state version ".to_owned();
                out.append(decimal_text(*version as u64).as_str());
                out
            },
            StoreError::WrongContract { stored, configured } => {
                let mut out = "state DB belongs to contract ".to_owned();
                out.append(stored.as_str());
                out.append(", config points to ");
                out.append(configured.as_str());
                out
            },
            StoreError::MissingStartLedger =>
                "TREEPIR_START_LEDGER is required when state DB does not exist".to_owned(),
            StoreError::IndexMismatch { next, event } => two_numbers(
                "persistent leaf index mismatch: next=",
                *next,
                ", event=",
                *event,
            ),
            StoreError::MissingLeaf(index) => {
                let mut out = "missing stored leaf at index ".to_owned();
                out.append(decimal_text(*index).as_str());
                out
            },
            StoreError::UnreadableLeaf { index, why } => {
                let mut out = "failed to parse stored leaf at index ".to_owned();
                out.append(decimal_text(*index).as_str());
                out.append(": ");
                out.append(why.as_str());
                out
            },
            StoreError::KeyMismatch { key, value } => two_numbers(
                "stored leaf key/index mismatch: key=",
                *key,
                ", value=",
                *value,
            ),
            StoreError::NotContiguous { next, got } => two_numbers(
                "stored leaves are not contiguous: next=",
                *next,
                ", got=",
                *got,
            ),
            StoreError::BadHash(why) => why.message(),
        }
    }
}

/// `n` in base 256, as `len` bytes, the highest first.
pub open spec fn be_bytes(n: nat, len: nat) -> Seq<u8>
    decreases len,
{
    if len == 0 {
        Seq::empty()
    } else {
        be_bytes(n / 256, (len - 1) as nat).push((n % 256) as u8)
    }
}

/// The key of the metadata.
pub open spec fn meta_key_bytes() -> Seq<u8> {
    encode_utf8("meta"@)
}

/// The key of the leaf at an index.
pub open spec fn leaf_key_bytes(index: u64) -> Seq<u8> {
    encode_utf8("leaf/"@) + be_bytes(index as nat, 8)
}

/// The key of an event.
pub open spec fn event_key_bytes(event_id: Seq<char>) -> Seq<u8> {
    encode_utf8("event/"@) + encode_utf8(event_id)
}

/// `n` as bytes, the highest first.
fn bytes_of(n: u64, len: usize) -> (out: Vec<u8>)
    ensures
        out@ == be_bytes(n as nat, len as nat),
    decreases len,
{
    if len == 0 {
        Vec::new()
    } else {
        let mut out = bytes_of(n / 256, len - 1);
        out.push((n % 256) as u8);
        out
    }
}

/// `front` followed by `back`.
fn joined(front: &[u8], back: &[u8]) -> (out: Vec<u8>)
    ensures
        out@ == front@ + back@,
{
    let mut out: Vec<u8> = Vec::new();
    out.extend_from_slice(front);
    out.extend_from_slice(back);
    assert(out@ =~= front@ + back@);
    out
}

/// The key of the metadata.
pub fn meta_key() -> (key: Vec<u8>)
    ensures
        key@ == meta_key_bytes(),
{
    let none: [u8; 0] = [];
    let key = joined("meta".as_bytes(), none.as_slice());
    assert(key@ =~= meta_key_bytes());
    key
}

/// The key of the leaf at an index.
pub fn leaf_key(index: u64) -> (key: Vec<u8>)
    ensures
        key@ == leaf_key_bytes(index),
{
    joined("leaf/".as_bytes(), bytes_of(index, 8).as_slice())
}

/// The key of an event.
pub fn event_key(event_id: &str) -> (key: Vec<u8>)
    ensures
        key@ == event_key_bytes(event_id@),
{
    joined("event/".as_bytes(), event_id.as_bytes())
}

/// What the database said when it was asked for an event.
#[derive(Debug, Clone, Copy, PartialEq, Eq, Structural)]
pub enum Lookup {
    Found,
    Absent,
    /// The database failed.
    Failed,
}

/// The state that is opened: the stored one, where there is one, else a new one.
/// Also whether it is new.
pub open spec fn opened(
    stored: Option<MetadataView>,
    contract_id: Seq<char>,
    start_ledger: Option<u64>,
) -> Result<(MetadataView, bool), StoreFault> {
    match stored {
        Some(metadata) => if metadata.version != 1 {
            Err(StoreFault::UnsupportedVersion(metadata.version))
        } else if metadata.contract_id != contract_id {
            Err(
                StoreFault::WrongContract {
                    stored: metadata.contract_id,
                    configured: contract_id,
                },
            )
        } else {
            Ok((metadata, false))
        },
        None => match start_ledger {
            Some(start) => Ok(
                (
                    MetadataView {
                        version: 1,
                        contract_id,
                        start_ledger: start,
                        last_indexed_ledger: if start == 0 {
                            0
                        } else {
                            (start - 1) as u64
                        },
                        leaf_count: 0,
                    },
                    true,
                ),
            ),
            None => Err(StoreFault::MissingStartLedger),
        },
    }
}

/// Metadata that may be there.
pub open spec fn metadata_view(stored: Option<TreePirPersistentMetadata>) -> Option<MetadataView> {
    match stored {
        Some(metadata) => Some(metadata@),
        None => None,
    }
}

/// A leaf as it is stored.
pub open spec fn stored_leaf(
    index: u64,
    leaf: Seq<u8>,
    event_id: Seq<char>,
    ledger: u64,
    source: Seq<char>,
) -> LeafView {
    LeafView { index, leaf_hex: hex_text(leaf), event_id, ledger, source }
}

/// The metadata after one more leaf. The count stops at the greatest number.
pub open spec fn with_next_leaf(metadata: MetadataView) -> MetadataView {
    MetadataView {
        leaf_count: if metadata.leaf_count == u64::MAX {
            u64::MAX
        } else {
            (metadata.leaf_count + 1) as u64
        },
        ..metadata
    }
}

/// What is written for a leaf. Nothing is, where its event is known; a leaf that
/// is not the next one is refused.
pub open spec fn append_writes(
    metadata: MetadataView,
    known: bool,
    index: u64,
    leaf: Seq<u8>,
    event_id: Seq<char>,
    ledger: u64,
    source: Seq<char>,
) -> Result<Option<Seq<(Seq<u8>, StoredValue)>>, StoreFault> {
    if known {
        Ok(None)
    } else if index != metadata.leaf_count {
        Err(StoreFault::IndexMismatch { next: metadata.leaf_count, event: index })
    } else {
        Ok(
            Some(
                seq![
                    (
                        leaf_key_bytes(index),
                        StoredValue::Leaf(stored_leaf(index, leaf, event_id, ledger, source)),
                    ),
                    (event_key_bytes(event_id), StoredValue::Index(be_bytes(index as nat, 8))),
                    (meta_key_bytes(), StoredValue::Metadata(with_next_leaf(metadata))),
                ],
            ),
        )
    }
}

/// The outcome of planning the writes for a leaf.
pub open spec fn writes_outcome(out: Result<Option<Vec<StoreWrite>>, StoreError>) -> Result<
    Option<Seq<(Seq<u8>, StoredValue)>>,
    StoreFault,
> {
    match out {
        Ok(Some(writes)) => Ok(Some(write_views(writes@))),
        Ok(None) => Ok(None),
        Err(error) => Err(error@),
    }
}

/// A state that was opened.
#[derive(Debug)]
pub enum OpenedStore {
    /// The stored state.
    Existing(PersistentTreeStore),
    /// A new state, which is still to be saved.
    Created(PersistentTreeStore),
}

/// The outcome of opening a state.
pub open spec fn opened_outcome(out: Result<OpenedStore, StoreError>) -> Result<
    (MetadataView, bool),
    StoreFault,
> {
    match out {
        Ok(OpenedStore::Existing(store)) => Ok((store@, false)),
        Ok(OpenedStore::Created(store)) => Ok((store@, true)),
        Err(error) => Err(error@),
    }
}

/// The state of the index.
#[derive(Debug)]
pub struct PersistentTreeStore {
    metadata: TreePirPersistentMetadata,
}

impl View for PersistentTreeStore {
    type V = MetadataView;

    closed spec fn view(&self) -> MetadataView {
        self.metadata@
    }
}

impl PersistentTreeStore {
    /// The state is of the version that is supported.
    pub open spec fn wf(self) -> bool {
        self@.version == 1
    }

    /// Opens the state, given the metadata that the database holds, if any.
    pub fn load_or_create(
        stored: Option<TreePirPersistentMetadata>,
        contract_id: String,
        start_ledger: Option<u64>,
    ) -> (out: Result<OpenedStore, StoreError>)
        ensures
            opened_outcome(out) == opened(metadata_view(stored), contract_id@, start_ledger),
            out matches Ok(OpenedStore::Existing(store)) ==> store.wf(),
            out matches Ok(OpenedStore::Created(store)) ==> store.wf(),
    {
        match stored {
            Some(metadata) => {
                if metadata.version != 1 {
                    return Err(StoreError::UnsupportedVersion(metadata.version));
                }
                if !same_text(metadata.contract_id.as_str(), contract_id.as_str()) {
                    return Err(
                        StoreError::WrongContract {
                            stored: metadata.contract_id,
                            configured: contract_id,
                        },
                    );
                }
                Ok(OpenedStore::Existing(PersistentTreeStore { metadata }))
            },
            None => match start_ledger {
                Some(start) => {
                    let metadata = TreePirPersistentMetadata {
                        version: 1,
                        contract_id,
                        start_ledger: start,
                        last_indexed_ledger: start.saturating_sub(1),
                        leaf_count: 0,
                    };
                    Ok(OpenedStore::Created(PersistentTreeStore { metadata }))
                },
                None => Err(StoreError::MissingStartLedger),
            },
        }
    }

    pub fn last_indexed_ledger(&self) -> (ledger: u64)
        ensures
            ledger == self@.last_indexed_ledger,
    {
        self.metadata.last_indexed_ledger
    }

    pub fn leaf_count(&self) -> (count: u64)
        ensures
            count == self@.leaf_count,
    {
        self.metadata.leaf_count
    }

    pub fn set_last_indexed_ledger(&mut self, ledger: u64)
        ensures
            final(self)@ == (MetadataView { last_indexed_ledger: ledger, ..old(self)@ }),
            old(self).wf() ==> final(self).wf(),
    {
        self.metadata.last_indexed_ledger = ledger;
    }

    /// Whether an event is known, given what the database said of its key. Where
    /// the database failed, it is not.
    pub fn has_event_id(&self, reply: Lookup) -> (known: bool)
        ensures
            known == (reply is Found),
    {
        reply == Lookup::Found
    }

    /// What is to be written for a leaf, all of it or nothing, given what the
    /// database said of the key of its event. Once it is written,
    /// `leaf_written` counts the leaf.
    pub fn append_leaf_record(
        &self,
        reply: Lookup,
        index: u64,
        leaf: &TreeHash,
        event_id: &str,
        ledger: u64,
        source: &str,
    ) -> (out: Result<Option<Vec<StoreWrite>>, StoreError>)
        ensures
            writes_outcome(out) == append_writes(
                self@,
                reply is Found,
                index,
                leaf@,
                event_id@,
                ledger,
                source@,
            ),
    {
        if self.has_event_id(reply) {
            return Ok(None);
        }
        if index != self.metadata.leaf_count {
            return Err(
                StoreError::IndexMismatch { next: self.metadata.leaf_count, event: index },
            );
        }
        let stored = StoredLeaf {
            index,
            leaf_hex: hex_of_hash(leaf),
            event_id: event_id.to_owned(),
            ledger,
            source: source.to_owned(),
        };
        let mut next = self.metadata.copy();
        next.leaf_count = next.leaf_count.saturating_add(1);
        let mut writes: Vec<StoreWrite> = Vec::new();
        writes.push(StoreWrite { key: leaf_key(index), value: StoredDatum::Leaf(stored) });
        writes.push(
            StoreWrite { key: event_key(event_id), value: StoredDatum::Index(bytes_of(index, 8)) },
        );
        writes.push(StoreWrite { key: meta_key(), value: StoredDatum::Metadata(next) });
        assert(write_views(writes@) =~= append_writes(
            self@,
            false,
            index,
            leaf@,
            event_id@,
            ledger,
            source@,
        )->Ok_0->0);
        Ok(Some(writes))
    }

    /// Counts a leaf that was written.
    pub fn leaf_written(&mut self)
        ensures
            final(self)@ == with_next_leaf(old(self)@),
            old(self).wf() ==> final(self).wf(),
    {
        self.metadata.leaf_count = self.metadata.leaf_count.saturating_add(1);
    }

    /// What is written to save the state.
    pub fn save(&self) -> (out: StoreWrite)
        ensures
            out@ == (meta_key_bytes(), StoredValue::Metadata(self@)),
    {
        StoreWrite { key: meta_key(), value: StoredDatum::Metadata(self.metadata.copy()) }
    }

    /// Starts to build the tree from the stored leaves.
    pub fn build_tree(&self) -> (out: TreeRebuild)
        ensures
            out@ == (RebuildView { index: 0, leaf_count: self@.leaf_count }),
    {
        TreeRebuild { index: 0, leaf_count: self.metadata.leaf_count }
    }
}

/// What the database said when it was asked for a leaf, in the abstract.
pub enum LeafReplyView {
    Missing,
    Unreadable(Seq<char>),
    Leaf(LeafView),
}

/// What the database said when it was asked for a leaf.
#[derive(Debug)]
pub enum LeafReply {
    Missing,
    /// What is stored is no leaf; the error in words.
    Unreadable(String),
    Leaf(StoredLeaf),
}

impl View for LeafReply {
    type V = LeafReplyView;

    open spec fn view(&self) -> LeafReplyView {
        match *self {
            LeafReply::Missing => LeafReplyView::Missing,
            LeafReply::Unreadable(why) => LeafReplyView::Unreadable(why@),
            LeafReply::Leaf(leaf) => LeafReplyView::Leaf(leaf@),
        }
    }
}

/// The leaf that is added to a tree of `tree_leaf_count` leaves, given what is
/// stored at `index`.
pub open spec fn rebuilt_leaf(index: u64, reply: LeafReplyView, tree_leaf_count: u64) -> Result<
    Seq<u8>,
    StoreFault,
> {
    match reply {
        LeafReplyView::Missing => Err(StoreFault::MissingLeaf(index)),
        LeafReplyView::Unreadable(why) => Err(StoreFault::UnreadableLeaf { index, why }),
        LeafReplyView::Leaf(leaf) => if leaf.index != index {
            Err(StoreFault::KeyMismatch { key: index, value: leaf.index })
        } else if leaf.index != tree_leaf_count {
            Err(StoreFault::NotContiguous { next: tree_leaf_count, got: leaf.index })
        } else {
            match hex_hash_value(leaf.leaf_hex) {
                Ok(hash) => Ok(hash),
                Err(why) => Err(StoreFault::BadHash(why)),
            }
        },
    }
}

/// The outcome of reading a stored leaf.
pub open spec fn leaf_outcome(out: Result<TreeHash, StoreError>) -> Result<Seq<u8>, StoreFault> {
    match out {
        Ok(hash) => Ok(hash@),
        Err(error) => Err(error@),
    }
}

/// How far the tree is rebuilt, in the abstract.
pub struct RebuildView {
    pub index: u64,
    pub leaf_count: u64,
}

/// How far the tree is rebuilt.
#[derive(Debug)]
pub struct TreeRebuild {
    index: u64,
    leaf_count: u64,
}

impl View for TreeRebuild {
    type V = RebuildView;

    closed spec fn view(&self) -> RebuildView {
        RebuildView { index: self.index, leaf_count: self.leaf_count }
    }
}

impl TreeRebuild {
    /// The key of the next leaf; none when all are read.
    pub fn next_key(&self) -> (out: Option<Vec<u8>>)
        ensures
            match out {
                Some(key) => self@.index < self@.leaf_count && key@ == leaf_key_bytes(self@.index),
                None => self@.index >= self@.leaf_count,
            },
    {
        if self.index < self.leaf_count {
            Some(leaf_key(self.index))
        } else {
            None
        }
    }

    /// The leaf to add to the tree, given what is stored under the next key and
    /// how many leaves the tree has.
    pub fn accept(&mut self, reply: LeafReply, tree_leaf_count: u64) -> (out: Result<
        TreeHash,
        StoreError,
    >)
        requires
            old(self)@.index < old(self)@.leaf_count,
        ensures
            leaf_outcome(out) == rebuilt_leaf(old(self)@.index, reply@, tree_leaf_count),
            final(self)@ == (match out {
                Ok(_) => RebuildView { index: (old(self)@.index + 1) as u64, ..old(self)@ },
                Err(_) => old(self)@,
            }),
    {
        match reply {
            LeafReply::Missing => Err(StoreError::MissingLeaf(self.index)),
            LeafReply::Unreadable(why) => Err(
                StoreError::UnreadableLeaf { index: self.index, why },
            ),
            LeafReply::Leaf(stored) => {
                if stored.index != self.index {
                    return Err(StoreError::KeyMismatch { key: self.index, value: stored.index });
                }
                if stored.index != tree_leaf_count {
                    return Err(
                        StoreError::NotContiguous { next: tree_leaf_count, got: stored.index },
                    );
                }
                match decode_hash_hex(stored.leaf_hex.as_str()) {
                    Ok(leaf) => {
                        self.index = self.index + 1;
                        Ok(leaf)
                    },
                    Err(why) => Err(StoreError::BadHash(why)),
                }
            },
        }
    }
}

} // verus!
