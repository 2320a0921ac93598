//! Edit sessions driven through the server state: every tab integrates the
//! canonical operations it is sent into a `crdts_kit` replica, and every
//! replica (late joiners replaying the join snapshot included) must render
//! the same text.

use crdt_demo::{AppState, ClientMsg, OperationId, ServerMsg, TextOperation};
use crdts_kit::text::RgaString;

fn kit_id(id: &OperationId) -> crdts_kit::text::OperationId {
    crdts_kit::text::OperationId { site_id: id.site_id, counter: id.counter }
}

fn to_kit(op: &TextOperation) -> crdts_kit::text::TextOperation {
    match op {
        TextOperation::Insert { id, position, content, origin_left, origin_right } => {
            crdts_kit::text::TextOperation::Insert {
                id: kit_id(id),
                position: *position,
                content: content.clone(),
                origin_left: origin_left.as_ref().map(kit_id),
                origin_right: origin_right.as_ref().map(kit_id),
            }
        }
        TextOperation::Delete { id, target } => {
            crdts_kit::text::TextOperation::Delete { id: kit_id(id), target: kit_id(target) }
        }
    }
}

/// A tab: its site id, a mirror of the browser replica (start after
/// `origin_left`, skip nodes with greater ids) and a `crdts_kit` replica to
/// cross-check it.
struct Tab {
    site: u32,
    nodes: Vec<(OperationId, char, bool)>,
    reference: RgaString,
}

fn key(id: &OperationId) -> (u32, u64) {
    (id.site_id, id.counter)
}

impl Tab {
    fn connect(state: &mut AppState, name: &str) -> Tab {
        let site = state.take_site();
        let init = state.register(site, name);
        let mut tab = Tab { site, nodes: Vec::new(), reference: RgaString::new() };
        match init {
            ServerMsg::Init { site_id, ops } => {
                assert_eq!(site_id, site);
                for op in &ops {
                    tab.apply(op);
                }
            }
            other => panic!("expected init, got {other:?}"),
        }
        tab
    }

    fn apply(&mut self, op: &TextOperation) {
        self.reference.apply(&to_kit(op));
        match op {
            TextOperation::Insert { id, content, origin_left, .. } => {
                let ch = content.chars().next().unwrap();
                let mut pos = 0;
                if let Some(left) = origin_left {
                    pos = match self.nodes.iter().position(|(nid, _, _)| nid == left) {
                        Some(i) => i + 1,
                        None => 0,
                    };
                }
                while pos < self.nodes.len() && key(&self.nodes[pos].0) > key(id) {
                    pos += 1;
                }
                self.nodes.insert(pos, (*id, ch, false));
            }
            TextOperation::Delete { target, .. } => {
                if let Some(node) = self.nodes.iter_mut().find(|(nid, _, _)| nid == target) {
                    node.2 = true;
                }
            }
        }
    }

    fn receive(&mut self, msgs: &[ServerMsg]) {
        for msg in msgs {
            if let ServerMsg::Op { op, .. } = msg {
                self.apply(op);
            }
        }
    }

    fn text(&self) -> String {
        let mirror: String = self.nodes.iter().filter(|(_, _, t)| !t).map(|(_, c, _)| c).collect();
        assert_eq!(mirror, self.reference.text(), "mirror and crdts-kit replicas diverged");
        mirror
    }

    /// Identity of the character at visible index `pos`.
    fn id_at(&self, pos: usize) -> OperationId {
        self.nodes.iter().filter(|(_, _, t)| !t).nth(pos).expect("no visible char at position").0
    }
}

fn intent(state: &mut AppState, site: u32, msg: ClientMsg) -> Vec<ServerMsg> {
    let msgs = state.apply_intent(site, msg).expect("counters have room");
    for m in &msgs {
        match m {
            ServerMsg::Op { from, .. } => assert_eq!(*from, site),
            other => panic!("expected op, got {other:?}"),
        }
    }
    msgs
}

fn insert(state: &mut AppState, site: u32, pos: usize, text: &str) -> Vec<ServerMsg> {
    intent(state, site, ClientMsg::InsertAt { pos, text: text.to_string() })
}

#[test]
fn sequential_edits_converge() {
    let mut state = AppState::new();
    let mut a = Tab::connect(&mut state, "a");
    let mut b = Tab::connect(&mut state, "b");
    assert_eq!(a.site, 1);
    assert_eq!(b.site, 2);

    let msgs = insert(&mut state, a.site, 0, "Hello");
    assert_eq!(msgs.len(), 5);
    a.receive(&msgs);
    b.receive(&msgs);
    assert_eq!(a.text(), "Hello");
    assert_eq!(b.text(), "Hello");

    let msgs = insert(&mut state, b.site, 5, "!");
    assert_eq!(msgs.len(), 1);
    a.receive(&msgs);
    b.receive(&msgs);
    assert_eq!(a.text(), "Hello!");
    assert_eq!(b.text(), "Hello!");

    let c = Tab::connect(&mut state, "c");
    assert_eq!(c.site, 3);
    assert_eq!(c.text(), "Hello!", "late joiner replayed the op log divergently");
}

#[test]
fn concurrent_same_position_inserts_converge() {
    let mut state = AppState::new();
    let mut a = Tab::connect(&mut state, "a");
    let mut b = Tab::connect(&mut state, "b");

    let from_a = insert(&mut state, a.site, 0, "X");
    let from_b = insert(&mut state, b.site, 0, "Y");
    // Each tab receives both, in the server's order.
    a.receive(&from_a);
    a.receive(&from_b);
    b.receive(&from_a);
    b.receive(&from_b);

    let text = a.text();
    assert_eq!(text, b.text(), "replicas diverged after concurrent inserts");
    assert_eq!(text.chars().count(), 2);
    assert!(text.contains('X') && text.contains('Y'), "lost a concurrent insert");

    let c = Tab::connect(&mut state, "c");
    assert_eq!(c.text(), text);
}

#[test]
fn concurrent_deletes_converge() {
    let mut state = AppState::new();
    let mut a = Tab::connect(&mut state, "a");
    let msgs = insert(&mut state, a.site, 0, "Hello");
    a.receive(&msgs);

    let mut b = Tab::connect(&mut state, "b");
    assert_eq!(b.text(), "Hello", "late joiner already has the doc from init");

    // Both tabs delete the same first character ('H') at the same moment.
    let target_a = a.id_at(0);
    let target_b = b.id_at(0);
    assert_eq!(target_a, target_b);
    let del_a = intent(&mut state, a.site, ClientMsg::DeleteChar { target: target_a });
    let del_b = intent(&mut state, b.site, ClientMsg::DeleteChar { target: target_b });
    a.receive(&del_a);
    a.receive(&del_b);
    b.receive(&del_a);
    b.receive(&del_b);

    assert_eq!(a.text(), "ello");
    assert_eq!(b.text(), "ello", "replicas diverged after concurrent deletes");
}

#[test]
fn three_way_concurrent_burst_converges() {
    let mut state = AppState::new();
    let mut a = Tab::connect(&mut state, "a");
    let msgs = insert(&mut state, a.site, 0, "crdt");
    a.receive(&msgs);

    let mut b = Tab::connect(&mut state, "b");
    let mut c = Tab::connect(&mut state, "c");
    assert_eq!(b.text(), "crdt", "late joiner gets state from init");
    assert_eq!(c.text(), "crdt");

    let msgs = insert(&mut state, b.site, 4, "-kit");
    for t in [&mut a, &mut b, &mut c] {
        t.receive(&msgs);
    }
    let msgs = insert(&mut state, a.site, 0, "> ");
    for t in [&mut a, &mut b, &mut c] {
        t.receive(&msgs);
    }
    assert_eq!(a.text(), "> crdt-kit");
    assert_eq!(b.text(), "> crdt-kit");
    assert_eq!(c.text(), "> crdt-kit");

    let ma = insert(&mut state, a.site, 2, "A");
    let mb = insert(&mut state, b.site, 10, "B");
    let mc = insert(&mut state, c.site, 5, "C");
    for t in [&mut a, &mut b, &mut c] {
        t.receive(&ma);
        t.receive(&mb);
        t.receive(&mc);
    }
    let text = a.text();
    assert_eq!(text.chars().count(), 13);
    assert_eq!(text, b.text());
    assert_eq!(text, c.text());
    assert!(text.contains('A') && text.contains('B') && text.contains('C'));
}

#[test]
fn insert_ops_carry_site_clock_and_characters() {
    let mut state = AppState::new();
    let a = Tab::connect(&mut state, "a");
    let msgs = insert(&mut state, a.site, 0, "hé!");
    let mut prev: Option<OperationId> = None;
    for (i, (msg, ch)) in msgs.iter().zip("hé!".chars()).enumerate() {
        match msg {
            ServerMsg::Op { op: TextOperation::Insert { id, position, content, origin_left, .. }, .. } => {
                assert_eq!(*id, OperationId { site_id: 1, counter: i as u64 + 1 });
                assert_eq!(*position, 0);
                assert_eq!(content, &ch.to_string());
                if i > 0 {
                    assert_eq!(*origin_left, prev);
                }
                prev = Some(*id);
            }
            other => panic!("expected insert, got {other:?}"),
        }
    }
}

#[test]
fn delete_ids_follow_the_clock() {
    let mut state = AppState::new();
    let a = Tab::connect(&mut state, "a");
    let _ = insert(&mut state, a.site, 0, "abc");
    let target = OperationId { site_id: 1, counter: 2 };
    let first = intent(&mut state, a.site, ClientMsg::DeleteChar { target });
    let second = intent(&mut state, a.site, ClientMsg::DeleteChar { target });
    match (&first[0], &second[0]) {
        (
            ServerMsg::Op { op: TextOperation::Delete { id: i1, target: t1 }, .. },
            ServerMsg::Op { op: TextOperation::Delete { id: i2, target: t2 }, .. },
        ) => {
            // The inserts took counters 1 to 3, so the deletes get 4 and 5:
            // no id of the log is reused.
            assert_eq!(*i1, OperationId { site_id: 1, counter: 4 });
            assert_eq!(*i2, OperationId { site_id: 1, counter: 5 });
            assert_eq!(*t1, target);
            assert_eq!(*t2, target);
        }
        other => panic!("expected deletes, got {other:?}"),
    }
    // An insert after the deletes continues from the clock.
    let after = insert(&mut state, a.site, 0, "z");
    match &after[0] {
        ServerMsg::Op { op: TextOperation::Insert { id, .. }, .. } => {
            assert_eq!(*id, OperationId { site_id: 1, counter: 6 })
        }
        other => panic!("expected insert, got {other:?}"),
    }
    let late = Tab::connect(&mut state, "late");
    assert_eq!(late.text(), "zac");
}

#[test]
fn hello_then_delete_uses_a_fresh_id() {
    let mut state = AppState::new();
    let a = Tab::connect(&mut state, "a");
    let inserts = insert(&mut state, a.site, 0, "Hello");
    let del = intent(&mut state, a.site, ClientMsg::DeleteChar { target: OperationId { site_id: 1, counter: 1 } });
    let mut ids: Vec<OperationId> = Vec::new();
    for m in inserts.iter().chain(del.iter()) {
        if let ServerMsg::Op { op, .. } = m {
            ids.push(match op {
                TextOperation::Insert { id, .. } => *id,
                TextOperation::Delete { id, .. } => *id,
            });
        }
    }
    for i in 0..ids.len() {
        for j in i + 1..ids.len() {
            assert_ne!(ids[i], ids[j]);
        }
    }
}

#[test]
fn join_snapshot_is_the_whole_log_in_order() {
    let mut state = AppState::new();
    let a = Tab::connect(&mut state, "a");
    let mut broadcast: Vec<TextOperation> = Vec::new();
    for msgs in [insert(&mut state, a.site, 0, "ab"), insert(&mut state, a.site, 1, "Z")] {
        for m in msgs {
            if let ServerMsg::Op { op, .. } = m {
                broadcast.push(op);
            }
        }
    }
    let site = state.take_site();
    match state.register(site, "late") {
        ServerMsg::Init { site_id, ops } => {
            assert_eq!(site_id, 2);
            assert_eq!(ops.len(), broadcast.len());
            for (x, y) in ops.iter().zip(broadcast.iter()) {
                assert_eq!(format!("{x:?}"), format!("{y:?}"));
            }
        }
        other => panic!("expected init, got {other:?}"),
    }
}

#[test]
fn empty_insert_broadcasts_nothing() {
    let mut state = AppState::new();
    let a = Tab::connect(&mut state, "a");
    let msgs = insert(&mut state, a.site, 0, "");
    assert!(msgs.is_empty());
    let b = Tab::connect(&mut state, "b");
    assert_eq!(b.text(), "");
}
