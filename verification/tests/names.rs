//! Display names: trimming, the 24-byte cut at a character boundary, the
//! guest fallback, and the token read from an upgrade request.

use crdt_demo::name::{display_name, name_for_token, name_from_str, MAX_NAME_BYTES};
use crdt_demo::{AppState, ServerMsg};

fn roster_names(state: &AppState) -> Vec<String> {
    match state.presence() {
        ServerMsg::Presence { participants } => participants.into_iter().map(|p| p.1).collect(),
        other => panic!("expected presence, got {other:?}"),
    }
}

/// Connects a tab the way the server does: name from the request, then a
/// site, then registration.
fn connect(state: &mut AppState, auth: Option<&str>, query: Option<&str>) -> u32 {
    let name = display_name(auth, query);
    let site = state.take_site();
    state.register(site, &name);
    site
}

#[test]
fn absent_empty_and_blank_tokens_become_guest() {
    assert_eq!(name_for_token(None), "guest");
    assert_eq!(name_for_token(Some("")), "guest");
    assert_eq!(name_for_token(Some(" ")), "guest");
    assert_eq!(name_for_token(Some("\t\u{3000}\u{a0} ")), "guest");

    // The roster sees four guests: no query, an empty token, a blank token,
    // and the listener itself.
    let mut state = AppState::new();
    connect(&mut state, None, None);
    connect(&mut state, None, Some(""));
    connect(&mut state, None, Some("token="));
    connect(&mut state, None, Some("token=%20"));
    let names = roster_names(&state);
    assert_eq!(names.iter().filter(|n| *n == "guest").count(), 4);
    assert_eq!(names.len(), 4);
}

#[test]
fn long_ascii_token_truncated_to_24_bytes() {
    let long = "A".repeat(40);
    assert_eq!(name_from_str(&long), "A".repeat(24));
    assert_eq!(MAX_NAME_BYTES, 24);
    let mut state = AppState::new();
    connect(&mut state, None, None);
    connect(&mut state, None, Some(&format!("token={long}")));
    assert!(roster_names(&state).contains(&"A".repeat(24)));
}

#[test]
fn multibyte_token_truncated_at_char_boundary() {
    // 7 CJK chars (21 bytes) + é (2 bytes) + 1 CJK char (3 bytes) = 26 bytes;
    // byte 24 falls inside the final char, which is dropped whole.
    let token = "人".repeat(7) + "é" + "人";
    assert_eq!(name_from_str(&token), "人人人人人人人é");
    let mut state = AppState::new();
    connect(&mut state, None, None);
    let q = format!("token={}", "%E4%BA%BA".repeat(7) + "%C3%A9" + "%E4%BA%BA");
    let site = connect(&mut state, None, Some(&q));
    assert_eq!(site, 2);
    // ws-kit decodes each %XX byte to the char with that code, so the name
    // is cut at a character boundary of the decoded text, never mid-char.
    let names = roster_names(&state);
    assert_eq!(names.len(), 2);
    assert_eq!(names[1], "\u{e4}\u{ba}\u{ba}".repeat(4));
}

#[test]
fn names_are_trimmed_before_the_cut() {
    assert_eq!(name_from_str("  Alice \n"), "Alice");
    assert_eq!(name_from_str("\u{2003}Bob\u{205f}"), "Bob");
    // Inner white space stays; the cut may end on it.
    let spaced = format!("{} {}", "x".repeat(23), "yz");
    assert_eq!(name_from_str(&spaced), format!("{} ", "x".repeat(23)));
    // A four-byte character that does not fit is dropped whole.
    let emoji = format!("{}\u{1F600}", "a".repeat(21));
    assert_eq!(name_from_str(&emoji), "a".repeat(21));
}

#[test]
fn token_query_becomes_display_name() {
    assert_eq!(display_name(None, Some("token=Alice")), "Alice");
    let mut state = AppState::new();
    connect(&mut state, None, None);
    connect(&mut state, None, Some("token=Alice"));
    assert!(roster_names(&state).iter().any(|n| n == "Alice"), "roster never contained Alice");
}

#[test]
fn bearer_header_and_missing_token() {
    assert_eq!(display_name(Some("Bearer   Carol  "), None), "Carol");
    assert_eq!(display_name(Some("Bearer Dave"), Some("token=Erin")), "Dave");
    assert_eq!(display_name(Some("Basic xyz"), Some("access_token=Fay")), "Fay");
    assert_eq!(display_name(None, None), "guest");
    assert_eq!(display_name(None, Some("token=%20")), "guest");
    let long = "B".repeat(30);
    assert_eq!(display_name(None, Some(&format!("token={long}"))), "B".repeat(24));
}
