use namada_wallet::transfer::{advance, SendEvent, SendState};

fn keys(names: &[&str]) -> Vec<String> {
    names.iter().map(|k| k.to_string()).collect()
}

#[test]
fn missing_source_ends_the_flow() {
    let s = advance(SendState::FindSource, SendEvent::SourceFound(false));
    assert!(matches!(s, SendState::Done));
}

#[test]
fn revealed_account_goes_straight_to_transfer() {
    let s = advance(SendState::FindSource, SendEvent::SourceFound(true));
    assert!(matches!(s, SendState::CheckReveal));
    let s = advance(s, SendEvent::RevealChecked(true));
    assert!(matches!(s, SendState::LoadSigningKeys));
    let s = advance(s, SendEvent::SigningKeysLoaded(Some(keys(&["k1", "k2"]))));
    match &s {
        SendState::Transfer { keys: k } => assert_eq!(k, &keys(&["k1", "k2"])),
        other => panic!("unexpected step {:?}", other),
    }
    let s = advance(s, SendEvent::TransferSubmitted);
    assert!(matches!(s, SendState::Done));
}

#[test]
fn unrevealed_account_reveals_each_key_in_order() {
    let s = advance(SendState::CheckReveal, SendEvent::RevealChecked(false));
    assert!(matches!(s, SendState::ShowViewingKeys));
    let s = advance(s, SendEvent::ViewingKeysShown);
    assert!(matches!(s, SendState::LoadRevealKeys));
    let mut s = advance(s, SendEvent::RevealKeysLoaded(Some(keys(&["a", "b", "c"]))));
    let mut revealed = Vec::new();
    while let SendState::Reveal { keys: k, next } = &s {
        revealed.push(k[*next].clone());
        s = advance(s, SendEvent::KeyRevealed(true));
    }
    assert_eq!(revealed, keys(&["a", "b", "c"]));
    assert!(matches!(s, SendState::LoadSigningKeys));
}

#[test]
fn refused_reveal_stops_before_transfer() {
    let s = SendState::Reveal { keys: keys(&["a", "b"]), next: 0 };
    let s = advance(s, SendEvent::KeyRevealed(false));
    assert!(matches!(s, SendState::Done));
}

#[test]
fn key_loading_failures() {
    let s = advance(SendState::LoadRevealKeys, SendEvent::RevealKeysLoaded(None));
    assert!(matches!(s, SendState::LoadSigningKeys));
    let s = advance(SendState::LoadRevealKeys, SendEvent::RevealKeysLoaded(Some(vec![])));
    assert!(matches!(s, SendState::LoadSigningKeys));
    let s = advance(SendState::LoadSigningKeys, SendEvent::SigningKeysLoaded(None));
    assert!(matches!(s, SendState::Done));
}

#[test]
fn unexpected_events_change_nothing() {
    let s = advance(SendState::FindSource, SendEvent::TransferSubmitted);
    assert!(matches!(s, SendState::FindSource));
    let s = advance(SendState::Done, SendEvent::SourceFound(true));
    assert!(matches!(s, SendState::Done));
}

#[test]
fn every_accepted_event_moves_forward() {
    // A full run with one reveal takes at most eight steps.
    let events = vec![
        SendEvent::SourceFound(true),
        SendEvent::RevealChecked(false),
        SendEvent::ViewingKeysShown,
        SendEvent::RevealKeysLoaded(Some(keys(&["a"]))),
        SendEvent::KeyRevealed(true),
        SendEvent::SigningKeysLoaded(Some(keys(&["a"]))),
        SendEvent::TransferSubmitted,
    ];
    let mut s = SendState::FindSource;
    for e in events {
        s = advance(s, e);
    }
    assert!(matches!(s, SendState::Done));
}
