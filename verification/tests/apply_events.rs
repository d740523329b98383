use stellar_mixer_treepir_server::apply::{
    apply_local_ledger_event, apply_rpc_event, ApplyError, ApplyReply, ApplyRequest,
    EventApplication, LeafSource,
};
use stellar_mixer_treepir_server::events::MixerTreeEvent;
use stellar_mixer_treepir_server::ledger_events::LocalLedgerEvent;
use stellar_mixer_treepir_server::rpc_events::RpcEvent;
use stellar_mixer_treepir_server::state_store::Lookup;

/// A tree whose root is the sum of its leaves, and the records of its leaves.
struct World {
    leaves: Vec<[u8; 32]>,
    records: Vec<(u64, [u8; 32], String, u64, &'static str)>,
    saves: usize,
}

impl World {
    fn new() -> Self {
        World { leaves: Vec::new(), records: Vec::new(), saves: 0 }
    }

    fn root_with(&self, more: &[[u8; 32]]) -> [u8; 32] {
        let sum = self
            .leaves
            .iter()
            .chain(more)
            .fold(0u8, |sum, leaf| sum.wrapping_add(leaf[0]));
        [sum; 32]
    }

    fn lookup(&self, id: &str) -> Lookup {
        if self.records.iter().any(|record| record.2 == id) {
            Lookup::Found
        } else {
            Lookup::Absent
        }
    }

    fn run(&mut self, mut application: EventApplication) -> Result<(), ApplyError> {
        loop {
            let reply = match application.request() {
                ApplyRequest::IsKnown(id) => ApplyReply::Known(self.lookup(&id) == Lookup::Found),
                ApplyRequest::LeafCount => {
                    assert!(application.has_room(self.leaves.len() as u64));
                    ApplyReply::LeafCount(self.leaves.len() as u64)
                }
                ApplyRequest::AppendLeaf(leaf) => {
                    self.leaves.push(leaf);
                    ApplyReply::Appended(self.leaves.len() as u64 - 1)
                }
                ApplyRequest::Root => ApplyReply::Root(self.root_with(&[])),
                ApplyRequest::Record { index, leaf, event_id, ledger, source } => {
                    self.records.push((index, leaf, event_id, ledger, source.name()));
                    ApplyReply::Recorded
                }
                ApplyRequest::Save => {
                    self.saves += 1;
                    ApplyReply::Saved
                }
                ApplyRequest::Done => return Ok(()),
            };
            application.resume(reply)?;
        }
    }
}

fn deposit(index: u64, leaf: [u8; 32], root: [u8; 32]) -> MixerTreeEvent {
    MixerTreeEvent::Deposit { index, leaf, root }
}

#[test]
fn matching_events_extend_tree_and_records() {
    let mut world = World::new();
    let root = world.root_with(&[[1; 32]]);
    world
        .run(EventApplication::apply_parsed_tree_event("a", 10, deposit(0, [1; 32], root)))
        .unwrap();
    let root = world.root_with(&[[2; 32], [3; 32]]);
    let transfer = MixerTreeEvent::Transfer {
        start_index: 1,
        output_leaves: vec![[2; 32], [3; 32]],
        root,
    };
    world
        .run(EventApplication::apply_parsed_tree_event("b", 11, transfer))
        .unwrap();
    let root = world.root_with(&[[4; 32]]);
    let change = MixerTreeEvent::WithdrawChange { index: 3, leaf: [4; 32], root };
    world
        .run(EventApplication::apply_parsed_tree_event("c", 12, change))
        .unwrap();
    assert_eq!(world.leaves, vec![[1; 32], [2; 32], [3; 32], [4; 32]]);
    assert_eq!(
        world.records,
        vec![
            (0, [1; 32], "a".to_string(), 10, "deposit"),
            (1, [2; 32], "b#0".to_string(), 11, "transfer"),
            (2, [3; 32], "b#1".to_string(), 11, "transfer"),
            (3, [4; 32], "c".to_string(), 12, "withdraw"),
        ]
    );
    assert_eq!(world.saves, 3);
}

#[test]
fn event_out_of_order_changes_nothing() {
    let mut world = World::new();
    let error = world
        .run(EventApplication::apply_parsed_tree_event("a", 10, deposit(1, [1; 32], [1; 32])))
        .unwrap_err();
    assert_eq!(
        error.message(),
        "deposit index mismatch at event a: local next=0, event index=1"
    );
    let transfer = MixerTreeEvent::Transfer {
        start_index: u64::MAX,
        output_leaves: vec![[2; 32]],
        root: [2; 32],
    };
    let error = world
        .run(EventApplication::apply_parsed_tree_event("b", 10, transfer))
        .unwrap_err();
    assert_eq!(
        error.message(),
        "transfer index mismatch at event b: local next=0, event start_index=18446744073709551615"
    );
    assert!(world.leaves.is_empty());
    assert!(world.records.is_empty());
    assert_eq!(world.saves, 0);
}

#[test]
fn event_with_other_root_is_not_recorded() {
    let mut world = World::new();
    let change = MixerTreeEvent::WithdrawChange { index: 0, leaf: [1; 32], root: [9; 32] };
    let error = world
        .run(EventApplication::apply_parsed_tree_event("a", 10, change))
        .unwrap_err();
    assert_eq!(
        error.message(),
        format!(
            "withdraw root mismatch at event a: local={}, event={}",
            "01".repeat(32),
            "09".repeat(32)
        )
    );
    assert!(world.records.is_empty());
    assert_eq!(world.saves, 0);
}

#[test]
fn wrong_position_in_tree_is_refused() {
    let mut application =
        EventApplication::apply_parsed_tree_event("a", 10, deposit(4, [1; 32], [1; 32]));
    assert!(matches!(application.request(), ApplyRequest::LeafCount));
    application.resume(ApplyReply::LeafCount(4)).unwrap();
    assert!(matches!(application.request(), ApplyRequest::AppendLeaf(leaf) if leaf == [1; 32]));
    let error = application.resume(ApplyReply::Appended(5)).unwrap_err();
    assert_eq!(
        error.message(),
        "tree append index mismatch at event a: expected 4, got 5"
    );
}

#[test]
fn applied_events_are_not_applied_again() {
    let mut world = World::new();
    let root = world.root_with(&[[2; 32], [3; 32]]);
    let transfer = || MixerTreeEvent::Transfer {
        start_index: 0,
        output_leaves: vec![[2; 32], [3; 32]],
        root,
    };
    world
        .run(EventApplication::apply_parsed_tree_event("b", 11, transfer()))
        .unwrap();
    world
        .run(EventApplication::apply_parsed_tree_event("b", 11, transfer()))
        .unwrap();
    assert_eq!(world.leaves.len(), 2);
    assert_eq!(world.records.len(), 2);
    assert_eq!(world.saves, 1);

    let root = world.root_with(&[[1; 32]]);
    let event = || LocalLedgerEvent {
        id: "c".to_string(),
        ledger: 12,
        order: 0,
        parsed: deposit(2, [1; 32], root),
    };
    let started = apply_local_ledger_event(event(), world.lookup("c")).unwrap();
    world.run(started).unwrap();
    assert!(apply_local_ledger_event(event(), world.lookup("c")).is_none());
    world
        .run(EventApplication::apply_parsed_tree_event("b", 11, transfer()))
        .unwrap();
    assert_eq!(world.leaves.len(), 3);
    assert_eq!(world.records.len(), 3);
    assert_eq!(world.saves, 2);
}

#[test]
fn transfer_without_leaves_compares_the_root() {
    let mut world = World::new();
    let transfer = MixerTreeEvent::Transfer {
        start_index: 0,
        output_leaves: vec![],
        root: [0; 32],
    };
    world
        .run(EventApplication::apply_parsed_tree_event("b", 11, transfer))
        .unwrap();
    assert!(world.records.is_empty());
    assert_eq!(world.saves, 1);
}

#[test]
fn reported_events_of_others_are_passed_over() {
    let event = RpcEvent {
        id: "a".to_string(),
        contract_id: "OTHER".to_string(),
        ledger: 3,
        topic: vec!["not base64".to_string()],
        value: "not base64".to_string(),
    };
    assert!(apply_rpc_event(&event, "CONTRACT", Lookup::Absent).ok().unwrap().is_none());
    assert!(apply_rpc_event(&event, "OTHER", Lookup::Found).ok().unwrap().is_none());
    let error = apply_rpc_event(&event, "OTHER", Lookup::Absent).err().unwrap();
    assert!(error
        .message()
        .starts_with("failed to decode event topic XDR: failed to decode Stellar ScVal base64 XDR: "));
    assert_eq!(LeafSource::Withdraw.name(), "withdraw");
}
