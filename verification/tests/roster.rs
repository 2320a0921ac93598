//! Presence rosters, site-id dispensing and connection decisions.

use crdt_demo::roster::sort_by_site;
use crdt_demo::session::{next_action, SessionAction, SessionEvent};
use crdt_demo::{AppState, ClientMsg, ServerMsg};

fn roster_of(state: &AppState) -> Vec<(u32, String)> {
    match state.presence() {
        ServerMsg::Presence { participants } => participants,
        other => panic!("expected presence, got {other:?}"),
    }
}

#[test]
fn roster_is_ordered_by_site_and_follows_joins_and_leaves() {
    let mut state = AppState::new();
    assert!(roster_of(&state).is_empty());
    state.register(3, "Carol");
    state.register(1, "Alice");
    state.register(2, "Bob");
    assert_eq!(
        roster_of(&state),
        vec![(1, "Alice".to_string()), (2, "Bob".to_string()), (3, "Carol".to_string())]
    );
    match state.unregister(2) {
        ServerMsg::Presence { participants } => {
            assert_eq!(participants, vec![(1, "Alice".to_string()), (3, "Carol".to_string())])
        }
        other => panic!("expected presence, got {other:?}"),
    }
    assert_eq!(roster_of(&state), vec![(1, "Alice".to_string()), (3, "Carol".to_string())]);
    // Re-registering a site replaces its name.
    state.register(1, "Alicia");
    assert_eq!(roster_of(&state), vec![(1, "Alicia".to_string()), (3, "Carol".to_string())]);
    state.unregister(7);
    assert_eq!(roster_of(&state).len(), 2);
}

#[test]
fn many_participants_sorted() {
    let mut state = AppState::new();
    let ids = [17u32, 4, 99, 1, 56, 23, 8, 42, 3, 77];
    for id in ids {
        state.register(id, &format!("p{id}"));
    }
    let r = roster_of(&state);
    let mut expected: Vec<u32> = ids.to_vec();
    expected.sort();
    assert_eq!(r.iter().map(|e| e.0).collect::<Vec<_>>(), expected);
    for (id, name) in r {
        assert_eq!(name, format!("p{id}"));
    }
}

#[test]
fn sort_by_site_orders_entries() {
    let v = vec![(5, "e".to_string()), (2, "b".to_string()), (9, "i".to_string()), (1, "a".to_string())];
    let r = sort_by_site(v);
    assert_eq!(
        r,
        vec![(1, "a".to_string()), (2, "b".to_string()), (5, "e".to_string()), (9, "i".to_string())]
    );
    assert!(sort_by_site(Vec::new()).is_empty());
}

#[test]
fn sites_are_handed_out_from_one() {
    let mut state = AppState::new();
    assert_eq!(state.take_site(), 1);
    assert_eq!(state.take_site(), 2);
    assert_eq!(state.take_site(), 3);
}

#[test]
fn session_decisions() {
    assert!(matches!(next_action(SessionEvent::Broadcast("x".to_string())), SessionAction::Forward(t) if t == "x"));
    assert!(matches!(
        next_action(SessionEvent::Intent(ClientMsg::InsertAt { pos: 1, text: "q".to_string() })),
        SessionAction::Apply(ClientMsg::InsertAt { pos: 1, .. })
    ));
    assert!(matches!(next_action(SessionEvent::Malformed), SessionAction::Reject));
    assert!(matches!(next_action(SessionEvent::OtherFrame), SessionAction::Continue));
    assert!(matches!(next_action(SessionEvent::Lagged(3)), SessionAction::Disconnect));
    assert!(matches!(next_action(SessionEvent::BroadcastClosed), SessionAction::Disconnect));
    assert!(matches!(next_action(SessionEvent::ClientGone), SessionAction::Disconnect));
    assert!(matches!(next_action(SessionEvent::SendFailed), SessionAction::Disconnect));
}
