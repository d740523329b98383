use stellar_mixer_treepir_server::apply::{ApplyReply, ApplyRequest, EventApplication};
use stellar_mixer_treepir_server::events::MixerTreeEvent;
use stellar_mixer_treepir_server::state_store::{
    event_key, meta_key, LeafReply, Lookup, OpenedStore, PersistentTreeStore, StoreWrite,
    StoredDatum,
};

struct Database {
    entries: Vec<(Vec<u8>, StoredDatum)>,
}

impl Database {
    fn put(&mut self, write: StoreWrite) {
        self.entries.retain(|(key, _)| *key != write.key);
        self.entries.push((write.key, write.value));
    }

    fn get(&self, key: &[u8]) -> Option<&StoredDatum> {
        self.entries
            .iter()
            .find(|(stored, _)| stored.as_slice() == key)
            .map(|(_, value)| value)
    }

    fn lookup(&self, id: &str) -> Lookup {
        match self.get(&event_key(id)) {
            Some(_) => Lookup::Found,
            None => Lookup::Absent,
        }
    }
}

fn root(tree: &[[u8; 32]]) -> [u8; 32] {
    [tree.iter().fold(0u8, |sum, leaf| sum.wrapping_add(leaf[0])); 32]
}

fn apply(
    db: &mut Database,
    store: &mut PersistentTreeStore,
    tree: &mut Vec<[u8; 32]>,
    id: &str,
    event: MixerTreeEvent,
) {
    let mut application = EventApplication::apply_parsed_tree_event(id, 10, event);
    loop {
        let reply = match application.request() {
            ApplyRequest::IsKnown(id) => ApplyReply::Known(store.has_event_id(db.lookup(&id))),
            ApplyRequest::LeafCount => ApplyReply::LeafCount(tree.len() as u64),
            ApplyRequest::AppendLeaf(leaf) => {
                tree.push(leaf);
                ApplyReply::Appended(tree.len() as u64 - 1)
            }
            ApplyRequest::Root => ApplyReply::Root(root(tree)),
            ApplyRequest::Record { index, leaf, event_id, ledger, source } => {
                let reply = db.lookup(&event_id);
                let writes = store
                    .append_leaf_record(reply, index, &leaf, &event_id, ledger, source.name())
                    .unwrap();
                for write in writes.unwrap() {
                    db.put(write);
                }
                store.leaf_written();
                ApplyReply::Recorded
            }
            ApplyRequest::Save => {
                db.put(store.save());
                ApplyReply::Saved
            }
            ApplyRequest::Done => return,
        };
        application.resume(reply).unwrap();
    }
}

#[test]
fn restart_rebuilds_the_tree() {
    let mut db = Database { entries: Vec::new() };
    let mut store =
        match PersistentTreeStore::load_or_create(None, "CONTRACT".to_string(), Some(10)) {
            Ok(OpenedStore::Created(store)) => store,
            other => panic!("unexpected state: {other:?}"),
        };
    db.put(store.save());
    let mut tree = Vec::new();

    let first = MixerTreeEvent::Transfer {
        start_index: 0,
        output_leaves: vec![[1; 32], [2; 32]],
        root: [3; 32],
    };
    apply(&mut db, &mut store, &mut tree, "a", first);
    let second = MixerTreeEvent::Deposit { index: 2, leaf: [4; 32], root: [7; 32] };
    apply(&mut db, &mut store, &mut tree, "b", second);
    assert_eq!(db.lookup("a#0"), Lookup::Found);
    assert_eq!(db.lookup("a#1"), Lookup::Found);
    assert_eq!(db.lookup("b"), Lookup::Found);
    assert_eq!(db.lookup("a"), Lookup::Absent);

    let metadata = match db.get(&meta_key()) {
        Some(StoredDatum::Metadata(metadata)) => metadata.clone(),
        other => panic!("unexpected value: {other:?}"),
    };
    let reopened =
        match PersistentTreeStore::load_or_create(Some(metadata), "CONTRACT".to_string(), None) {
            Ok(OpenedStore::Existing(store)) => store,
            other => panic!("unexpected state: {other:?}"),
        };
    let mut rebuilt: Vec<[u8; 32]> = Vec::new();
    let mut rebuild = reopened.build_tree();
    while let Some(key) = rebuild.next_key() {
        let reply = match db.get(&key) {
            Some(StoredDatum::Leaf(leaf)) => LeafReply::Leaf(leaf.clone()),
            _ => LeafReply::Missing,
        };
        rebuilt.push(rebuild.accept(reply, rebuilt.len() as u64).unwrap());
    }
    assert_eq!(rebuilt, tree);
    assert_eq!(rebuilt, vec![[1; 32], [2; 32], [4; 32]]);
}
