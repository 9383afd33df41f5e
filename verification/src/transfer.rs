//! The decisions of the token-transfer flow.
//!
//! Sending tokens looks up the source account, reveals its public keys on
//! chain where that has not been done yet, and then submits a transparent
//! transfer signed with the keys of the wallet file. The application performs
//! the work that each [`SendState`] calls for and hands the outcome back as a
//! [`SendEvent`]; [`advance`] decides what comes next.

use vstd::prelude::*;

verus! {

/// The step of the transfer flow that is to be performed next.
#[derive(Debug)]
pub enum SendState {
    /// Look up the address of the source alias in the wallet.
    FindSource,
    /// Ask the node whether the source account has revealed its public key.
    CheckReveal,
    /// Load the viewing keys of the wallet file and show them.
    ShowViewingKeys,
    /// Load the public keys of the wallet file, to reveal them.
    LoadRevealKeys,
    /// Reveal `keys[next]` on chain: build, sign and submit its reveal transaction.
    Reveal { keys: Vec<String>, next: usize },
    /// Load the public keys of the wallet file, to sign the transfer.
    LoadSigningKeys,
    /// Build, sign and submit the transfer, signed with `keys`.
    Transfer { keys: Vec<String> },
    /// Nothing more is to be done.
    Done,
}

/// The outcome of the step that the application performed.
#[derive(Debug)]
pub enum SendEvent {
    /// Whether the wallet holds an address for the source alias.
    SourceFound(bool),
    /// Whether the source account has revealed its public key.
    RevealChecked(bool),
    /// The viewing keys were shown (or their loading failed and was reported).
    ViewingKeysShown,
    /// The public keys to reveal, or `None` where they could not be loaded.
    RevealKeysLoaded(Option<Vec<String>>),
    /// Whether the node accepted the reveal transaction.
    KeyRevealed(bool),
    /// The public keys to sign with, or `None` where they could not be loaded.
    SigningKeysLoaded(Option<Vec<String>>),
    /// The transfer was submitted (its outcome was reported).
    TransferSubmitted,
}

impl SendState {
    /// A reveal step always points at one of its keys.
    pub open spec fn wf(self) -> bool {
        match self {
            SendState::Reveal { keys, next } => next < keys.len(),
            _ => true,
        }
    }
}

/// Whether `state` is waiting for an event of the kind of `event`.
pub open spec fn accepts(state: SendState, event: SendEvent) -> bool {
    match (state, event) {
        (SendState::FindSource, SendEvent::SourceFound(_)) => true,
        (SendState::CheckReveal, SendEvent::RevealChecked(_)) => true,
        (SendState::ShowViewingKeys, SendEvent::ViewingKeysShown) => true,
        (SendState::LoadRevealKeys, SendEvent::RevealKeysLoaded(_)) => true,
        (SendState::Reveal { .. }, SendEvent::KeyRevealed(_)) => true,
        (SendState::LoadSigningKeys, SendEvent::SigningKeysLoaded(_)) => true,
        (SendState::Transfer { .. }, SendEvent::TransferSubmitted) => true,
        _ => false,
    }
}

/// The step that follows `state` once `event` has been observed. An event
/// that `state` does not wait for leaves it unchanged.
pub open spec fn send_next(state: SendState, event: SendEvent) -> SendState {
    match (state, event) {
        (SendState::FindSource, SendEvent::SourceFound(found)) => if found {
            SendState::CheckReveal
        } else {
            SendState::Done
        },
        (SendState::CheckReveal, SendEvent::RevealChecked(revealed)) => if revealed {
            SendState::LoadSigningKeys
        } else {
            SendState::ShowViewingKeys
        },
        (SendState::ShowViewingKeys, SendEvent::ViewingKeysShown) => SendState::LoadRevealKeys,
        (SendState::LoadRevealKeys, SendEvent::RevealKeysLoaded(loaded)) => match loaded {
            Some(keys) => if keys.len() == 0 {
                SendState::LoadSigningKeys
            } else {
                SendState::Reveal { keys, next: 0 }
            },
            None => SendState::LoadSigningKeys,
        },
        (SendState::Reveal { keys, next }, SendEvent::KeyRevealed(accepted)) => if !accepted {
            SendState::Done
        } else if next + 1 < keys.len() {
            SendState::Reveal { keys, next: (next + 1) as usize }
        } else {
            SendState::LoadSigningKeys
        },
        (SendState::LoadSigningKeys, SendEvent::SigningKeysLoaded(loaded)) => match loaded {
            Some(keys) => SendState::Transfer { keys },
            None => SendState::Done,
        },
        (SendState::Transfer { .. }, SendEvent::TransferSubmitted) => SendState::Done,
        _ => state,
    }
}

/// Decides the step that follows `state` once `event` has been observed.
pub fn advance(state: SendState, event: SendEvent) -> (next: SendState)
    requires
        state.wf(),
    ensures
        next == send_next(state, event),
        next.wf(),
{
    match (state, event) {
        (SendState::FindSource, SendEvent::SourceFound(found)) => {
            if found {
                SendState::CheckReveal
            } else {
                SendState::Done
            }
        },
        (SendState::CheckReveal, SendEvent::RevealChecked(revealed)) => {
            if revealed {
                SendState::LoadSigningKeys
            } else {
                SendState::ShowViewingKeys
            }
        },
        (SendState::ShowViewingKeys, SendEvent::ViewingKeysShown) => SendState::LoadRevealKeys,
        (SendState::LoadRevealKeys, SendEvent::RevealKeysLoaded(loaded)) => {
            match loaded {
                Some(keys) => {
                    if keys.len() == 0 {
                        SendState::LoadSigningKeys
                    } else {
                        SendState::Reveal { keys, next: 0 }
                    }
                },
                None => SendState::LoadSigningKeys,
            }
        },
        (SendState::Reveal { keys, next }, SendEvent::KeyRevealed(accepted)) => {
            if !accepted {
                SendState::Done
            } else if next + 1 < keys.len() {
                SendState::Reveal { keys, next: next + 1 }
            } else {
                SendState::LoadSigningKeys
            }
        },
        (SendState::LoadSigningKeys, SendEvent::SigningKeysLoaded(loaded)) => {
            match loaded {
                Some(keys) => SendState::Transfer { keys },
                None => SendState::Done,
            }
        },
        (SendState::Transfer { keys }, SendEvent::TransferSubmitted) => SendState::Done,
        (state, _) => state,
    }
}

/// The phase of a step: later steps have smaller phases.
pub open spec fn phase(state: SendState) -> nat {
    match state {
        SendState::FindSource => 7,
        SendState::CheckReveal => 6,
        SendState::ShowViewingKeys => 5,
        SendState::LoadRevealKeys => 4,
        SendState::Reveal { .. } => 3,
        SendState::LoadSigningKeys => 2,
        SendState::Transfer { .. } => 1,
        SendState::Done => 0,
    }
}

/// The number of reveals still to be made in a reveal step.
pub open spec fn reveals_left(state: SendState) -> nat {
    match state {
        SendState::Reveal { keys, next } => (keys.len() - next) as nat,
        _ => 0,
    }
}

/// Whether step `a` comes strictly after step `b`: an earlier phase, or the
/// same phase with fewer reveals left.
pub open spec fn comes_after(a: SendState, b: SendState) -> bool {
    ||| phase(a) < phase(b)
    ||| (phase(a) == phase(b) && reveals_left(a) < reveals_left(b))
}

/// The flow always ends: every event that a step waits for moves the flow
/// strictly forward, and the forward order has no infinite descent (phases
/// and reveal counts are natural numbers).
pub proof fn lemma_flow_moves_forward(state: SendState, event: SendEvent)
    requires
        state.wf(),
        accepts(state, event),
    ensures
        comes_after(send_next(state, event), state),
{
}

/// Once done, the flow stays done, whatever is observed.
pub proof fn lemma_done_is_final(event: SendEvent)
    ensures
        send_next(SendState::Done, event) == SendState::Done,
{
}

/// A transfer is submitted only after the signing keys were loaded, and it is
/// signed with exactly the keys that were loaded.
pub proof fn lemma_transfer_uses_loaded_keys(state: SendState, event: SendEvent, keys: Vec<String>)
    requires
        send_next(state, event) == (SendState::Transfer { keys }),
        state != (SendState::Transfer { keys }),
    ensures
        state == SendState::LoadSigningKeys,
        event == SendEvent::SigningKeysLoaded(Some(keys)),
{
}

/// Keys are revealed one after another in the order of the wallet file, and
/// a reveal that the node refuses ends the flow before any transfer.
pub proof fn lemma_reveals_in_order(keys: Vec<String>, next: usize, accepted: bool)
    requires
        next < keys.len(),
    ensures
        !accepted ==> send_next(SendState::Reveal { keys, next }, SendEvent::KeyRevealed(accepted))
            == SendState::Done,
        accepted && next + 1 < keys.len() ==> send_next(
            SendState::Reveal { keys, next },
            SendEvent::KeyRevealed(accepted),
        ) == (SendState::Reveal { keys, next: (next + 1) as usize }),
        accepted && next + 1 == keys.len() ==> send_next(
            SendState::Reveal { keys, next },
            SendEvent::KeyRevealed(accepted),
        ) == SendState::LoadSigningKeys,
{
}

/// Every key loaded for revealing is revealed, starting with the first one,
/// before any signing key is loaded: the reveal step is skipped only when no
/// key could be loaded or the wallet lists none.
pub proof fn lemma_loaded_keys_are_revealed(loaded: Option<Vec<String>>)
    ensures
        match loaded {
            Some(keys) => keys.len() > 0 ==> send_next(
                SendState::LoadRevealKeys,
                SendEvent::RevealKeysLoaded(loaded),
            ) == (SendState::Reveal { keys, next: 0 }),
            None => true,
        },
        send_next(SendState::LoadRevealKeys, SendEvent::RevealKeysLoaded(loaded))
            == SendState::LoadSigningKeys ==> (loaded is None || loaded.unwrap().len() == 0),
{
}

/// The decisions of the flow: a source alias without an address ends it; an
/// account that has revealed its key goes straight to the signing keys, one
/// that has not shows the viewing keys and then loads the keys to reveal;
/// loaded signing keys are used for the transfer, and without them nothing
/// is submitted; the flow ends once the transfer is submitted.
pub proof fn lemma_flow_decisions(
    found: bool,
    revealed: bool,
    loaded: Option<Vec<String>>,
    keys: Vec<String>,
)
    ensures
        send_next(SendState::FindSource, SendEvent::SourceFound(found)) == if found {
            SendState::CheckReveal
        } else {
            SendState::Done
        },
        send_next(SendState::CheckReveal, SendEvent::RevealChecked(revealed)) == if revealed {
            SendState::LoadSigningKeys
        } else {
            SendState::ShowViewingKeys
        },
        send_next(SendState::ShowViewingKeys, SendEvent::ViewingKeysShown)
            == SendState::LoadRevealKeys,
        send_next(SendState::LoadSigningKeys, SendEvent::SigningKeysLoaded(loaded)) == match loaded {
            Some(k) => SendState::Transfer { keys: k },
            None => SendState::Done,
        },
        send_next(SendState::Transfer { keys }, SendEvent::TransferSubmitted) == SendState::Done,
{
}

/// The step reached from `state` after observing `events` in order.
pub open spec fn run(state: SendState, events: Seq<SendEvent>) -> SendState
    decreases events.len(),
{
    if events.len() == 0 {
        state
    } else {
        send_next(run(state, events.drop_last()), events.last())
    }
}

/// Revealing goes through all loaded keys: after `k` accepted reveals the
/// flow is revealing key `k`, and once every key has been accepted it moves
/// on to the signing keys.
pub proof fn lemma_all_keys_revealed(keys: Vec<String>, k: nat)
    requires
        keys.len() > 0,
        k <= keys.len(),
    ensures
        run(
            SendState::Reveal { keys, next: 0 },
            Seq::new(k, |i: int| SendEvent::KeyRevealed(true)),
        ) == if k < keys.len() {
            SendState::Reveal { keys, next: k as usize }
        } else {
            SendState::LoadSigningKeys
        },
    decreases k,
{
    if k > 0 {
        let es = Seq::new(k, |i: int| SendEvent::KeyRevealed(true));
        assert(es.drop_last() =~= Seq::new((k - 1) as nat, |i: int| SendEvent::KeyRevealed(true)));
        lemma_all_keys_revealed(keys, (k - 1) as nat);
    }
}

} // verus!
