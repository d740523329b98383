use stellar_mixer_treepir_server::state_store::{
    event_key, leaf_key, meta_key, LeafReply, Lookup, OpenedStore, PersistentTreeStore, StoreError,
    StoreWrite, StoredDatum, StoredLeaf, TreePirPersistentMetadata,
};

/// A database in memory.
struct Database {
    entries: Vec<(Vec<u8>, StoredDatum)>,
}

impl Database {
    fn new() -> Self {
        Database { entries: Vec::new() }
    }

    fn put(&mut self, write: StoreWrite) {
        self.entries.retain(|(key, _)| *key != write.key);
        self.entries.push((write.key, write.value));
    }

    fn get(&self, key: &[u8]) -> Option<&StoredDatum> {
        self.entries
            .iter()
            .find(|(stored, _)| stored.as_slice() == key)
            .map(|(_, value)| value)
    }

    fn metadata(&self) -> Option<TreePirPersistentMetadata> {
        match self.get(&meta_key()) {
            Some(StoredDatum::Metadata(metadata)) => Some(metadata.clone()),
            Some(other) => panic!("unexpected value: {other:?}"),
            None => None,
        }
    }

    fn leaf(&self, key: &[u8]) -> LeafReply {
        match self.get(key) {
            Some(StoredDatum::Leaf(leaf)) => LeafReply::Leaf(leaf.clone()),
            Some(_) => LeafReply::Unreadable("not a leaf".to_string()),
            None => LeafReply::Missing,
        }
    }

    fn lookup(&self, event_id: &str) -> Lookup {
        if self.get(&event_key(event_id)).is_some() {
            Lookup::Found
        } else {
            Lookup::Absent
        }
    }

    fn open(
        &mut self,
        contract_id: String,
        start_ledger: Option<u64>,
    ) -> Result<PersistentTreeStore, StoreError> {
        match PersistentTreeStore::load_or_create(self.metadata(), contract_id, start_ledger)? {
            OpenedStore::Existing(store) => Ok(store),
            OpenedStore::Created(store) => {
                self.put(store.save());
                Ok(store)
            }
        }
    }

    fn append(
        &mut self,
        store: &mut PersistentTreeStore,
        index: u64,
        leaf: [u8; 32],
        event_id: &str,
        ledger: u64,
        source: &str,
    ) -> Result<(), StoreError> {
        let reply = self.lookup(event_id);
        if let Some(writes) = store.append_leaf_record(reply, index, &leaf, event_id, ledger, source)? {
            for write in writes {
                self.put(write);
            }
            store.leaf_written();
        }
        Ok(())
    }

    fn build_tree(&self, store: &PersistentTreeStore) -> Result<Vec<[u8; 32]>, StoreError> {
        let mut tree = Vec::new();
        let mut rebuild = store.build_tree();
        while let Some(key) = rebuild.next_key() {
            let leaf = rebuild.accept(self.leaf(&key), tree.len() as u64)?;
            tree.push(leaf);
        }
        Ok(tree)
    }
}

#[test]
fn store_requires_start_ledger_when_creating_new_state() {
    let mut db = Database::new();

    let error = db.open("CONTRACT".to_string(), None).unwrap_err().message();

    assert!(
        error.contains("TREEPIR_START_LEDGER"),
        "unexpected error: {error}"
    );
}

#[test]
fn store_roundtrips_leaves_and_rebuilds_tree() {
    let mut db = Database::new();

    {
        let mut store = db.open("CONTRACT".to_string(), Some(123)).unwrap();

        assert_eq!(store.last_indexed_ledger(), 122);
        assert_eq!(store.leaf_count(), 0);

        db.append(&mut store, 0, [1u8; 32], "event-1", 123, "deposit").unwrap();
        db.append(&mut store, 1, [2u8; 32], "event-2", 124, "withdraw").unwrap();

        store.set_last_indexed_ledger(124);
        db.put(store.save());
    }

    {
        let reloaded = db.open("CONTRACT".to_string(), None).unwrap();

        assert_eq!(reloaded.last_indexed_ledger(), 124);
        assert_eq!(reloaded.leaf_count(), 2);
        assert!(reloaded.has_event_id(db.lookup("event-1")));
        assert!(reloaded.has_event_id(db.lookup("event-2")));

        let tree = db.build_tree(&reloaded).unwrap();

        assert_eq!(tree.len(), 2);
        assert_eq!(tree, vec![[1u8; 32], [2u8; 32]]);
    }
}

#[test]
fn store_rejects_non_contiguous_leaf_indices() {
    let mut db = Database::new();

    let mut store = db.open("CONTRACT".to_string(), Some(123)).unwrap();

    let error = db
        .append(&mut store, 1, [1u8; 32], "event-1", 123, "deposit")
        .unwrap_err()
        .message();

    assert!(
        error.contains("persistent leaf index mismatch"),
        "unexpected error: {error}"
    );
    assert_eq!(error, "persistent leaf index mismatch: next=0, event=1");
}

#[test]
fn store_rejects_wrong_contract_id_on_reload() {
    let mut db = Database::new();

    {
        let store = db.open("CONTRACT_A".to_string(), Some(123)).unwrap();

        db.put(store.save());
    }

    let error = db.open("CONTRACT_B".to_string(), None).unwrap_err().message();

    assert!(
        error.contains("state DB belongs to contract"),
        "unexpected error: {error}"
    );
    assert_eq!(
        error,
        "state DB belongs to contract CONTRACT_A, config points to CONTRACT_B"
    );
}

#[test]
fn duplicate_event_id_is_idempotent() {
    let mut db = Database::new();

    let mut store = db.open("CONTRACT".to_string(), Some(123)).unwrap();

    db.append(&mut store, 0, [1u8; 32], "event-1", 123, "deposit").unwrap();

    db.append(&mut store, 1, [2u8; 32], "event-1", 123, "deposit").unwrap();

    assert_eq!(store.leaf_count(), 1);
    assert_eq!(db.build_tree(&store).unwrap(), vec![[1u8; 32]]);
}

#[test]
fn other_versions_are_refused() {
    let metadata = TreePirPersistentMetadata {
        version: 2,
        contract_id: "CONTRACT".to_string(),
        start_ledger: 1,
        last_indexed_ledger: 1,
        leaf_count: 0,
    };
    let error =
        PersistentTreeStore::load_or_create(Some(metadata), "OTHER".to_string(), Some(1)).unwrap_err();
    assert_eq!(error.message(), "unsupported state version 2");
}

#[test]
fn start_at_ledger_zero() {
    let mut db = Database::new();
    let store = db.open("CONTRACT".to_string(), Some(0)).unwrap();
    assert_eq!(store.last_indexed_ledger(), 0);
}

#[test]
fn keys_are_exact() {
    assert_eq!(leaf_key(0x0102), b"leaf/\0\0\0\0\0\0\x01\x02".to_vec());
    assert_eq!(leaf_key(u64::MAX), b"leaf/\xff\xff\xff\xff\xff\xff\xff\xff".to_vec());
    assert_eq!(event_key("event-1"), b"event/event-1".to_vec());
    assert_eq!(meta_key(), b"meta".to_vec());
}

#[test]
fn a_leaf_is_written_in_one_batch() {
    let mut db = Database::new();
    let store = db.open("CONTRACT".to_string(), Some(5)).unwrap();
    let writes = store
        .append_leaf_record(Lookup::Absent, 0, &[0xabu8; 32], "id", 7, "deposit")
        .unwrap()
        .unwrap();
    assert_eq!(writes.len(), 3);
    match &writes[0].value {
        StoredDatum::Leaf(StoredLeaf {
            index,
            leaf_hex,
            event_id,
            ledger,
            source,
        }) => {
            assert_eq!(*index, 0);
            assert_eq!(*leaf_hex, "ab".repeat(32));
            assert_eq!(event_id, "id");
            assert_eq!(*ledger, 7);
            assert_eq!(source, "deposit");
        }
        other => panic!("unexpected value: {other:?}"),
    }
    assert_eq!(writes[1].key, event_key("id"));
    assert!(matches!(&writes[1].value, StoredDatum::Index(bytes) if *bytes == vec![0u8; 8]));
    assert_eq!(writes[2].key, meta_key());
    assert!(matches!(&writes[2].value, StoredDatum::Metadata(next) if next.leaf_count == 1));
    assert_eq!(store.leaf_count(), 0);
}

#[test]
fn a_failed_lookup_counts_as_unknown() {
    let mut db = Database::new();
    let store = db.open("CONTRACT".to_string(), Some(5)).unwrap();
    assert!(!store.has_event_id(Lookup::Failed));
    assert!(!store.has_event_id(Lookup::Absent));
    assert!(store.has_event_id(Lookup::Found));
}

#[test]
fn rebuilding_refuses_what_is_not_a_leaf_sequence() {
    let metadata = TreePirPersistentMetadata {
        version: 1,
        contract_id: "CONTRACT".to_string(),
        start_ledger: 1,
        last_indexed_ledger: 1,
        leaf_count: 3,
    };
    let store = match PersistentTreeStore::load_or_create(Some(metadata), "CONTRACT".to_string(), None) {
        Ok(OpenedStore::Existing(store)) => store,
        other => panic!("unexpected state: {other:?}"),
    };
    let leaf = |index: u64, leaf_hex: &str| {
        LeafReply::Leaf(StoredLeaf {
            index,
            leaf_hex: leaf_hex.to_string(),
            event_id: "id".to_string(),
            ledger: 1,
            source: "deposit".to_string(),
        })
    };
    let good = "0x0x".to_string() + &"01".repeat(32);
    let mut rebuild = store.build_tree();
    assert_eq!(rebuild.accept(leaf(0, &good), 0).unwrap(), [1u8; 32]);
    let message = |rebuild: &mut stellar_mixer_treepir_server::state_store::TreeRebuild,
                   reply: LeafReply,
                   count: u64| rebuild.accept(reply, count).unwrap_err().message();
    assert_eq!(
        message(&mut rebuild, LeafReply::Missing, 1),
        "missing stored leaf at index 1"
    );
    assert_eq!(
        message(&mut rebuild, LeafReply::Unreadable("why".to_string()), 1),
        "failed to parse stored leaf at index 1: why"
    );
    assert_eq!(
        message(&mut rebuild, leaf(2, &good), 1),
        "stored leaf key/index mismatch: key=1, value=2"
    );
    assert_eq!(
        message(&mut rebuild, leaf(1, &good), 2),
        "stored leaves are not contiguous: next=2, got=1"
    );
    assert_eq!(
        message(&mut rebuild, leaf(1, "0102"), 1),
        "expected 32-byte hash, got 2 bytes"
    );
    assert_eq!(message(&mut rebuild, leaf(1, "010"), 1), "Odd number of digits");
    assert_eq!(
        message(&mut rebuild, leaf(1, "0g"), 1),
        "Invalid character 'g' at position 1"
    );
    assert_eq!(rebuild.next_key(), Some(leaf_key(1)));
}
