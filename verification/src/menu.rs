//! The main menu: which operation a typed choice selects.

use vstd::prelude::*;
use crate::text::{menu_choice_spec, parse_usize_spec, trim_spec};

verus! {

/// An entry of the main menu.
#[derive(Debug, Clone, Copy, PartialEq, Eq, Structural)]
pub enum MenuAction {
    CreateWallet,
    AddKey,
    PrintAddress,
    CreateSpendingKey,
    GeneratePaymentAddress,
    SendTokens,
    CheckRevealed,
    Exit,
    /// Any choice that is not on the menu.
    Invalid,
}

/// The menu entry that a choice selects: entries are numbered 1 to 8.
pub open spec fn menu_action_spec(choice: int) -> MenuAction {
    if choice == 1 {
        MenuAction::CreateWallet
    } else if choice == 2 {
        MenuAction::AddKey
    } else if choice == 3 {
        MenuAction::PrintAddress
    } else if choice == 4 {
        MenuAction::CreateSpendingKey
    } else if choice == 5 {
        MenuAction::GeneratePaymentAddress
    } else if choice == 6 {
        MenuAction::SendTokens
    } else if choice == 7 {
        MenuAction::CheckRevealed
    } else if choice == 8 {
        MenuAction::Exit
    } else {
        MenuAction::Invalid
    }
}

/// The menu entry that `choice` selects.
pub fn menu_action(choice: usize) -> (action: MenuAction)
    ensures
        action == menu_action_spec(choice as int),
{
    match choice {
        1 => MenuAction::CreateWallet,
        2 => MenuAction::AddKey,
        3 => MenuAction::PrintAddress,
        4 => MenuAction::CreateSpendingKey,
        5 => MenuAction::GeneratePaymentAddress,
        6 => MenuAction::SendTokens,
        7 => MenuAction::CheckRevealed,
        8 => MenuAction::Exit,
        _ => MenuAction::Invalid,
    }
}

/// Exactly the choices 1 to 8 are on the menu, and different choices select
/// different entries.
pub proof fn lemma_menu_entries(a: int, b: int)
    ensures
        (menu_action_spec(a) != MenuAction::Invalid) <==> (1 <= a <= 8),
        1 <= a <= 8 && menu_action_spec(a) == menu_action_spec(b) ==> a == b,
{
}

/// A typed line that is not a decimal number selects no menu entry.
pub proof fn lemma_unreadable_line_is_invalid(line: Seq<char>)
    requires
        parse_usize_spec(trim_spec(line)) is None,
    ensures
        menu_action_spec(menu_choice_spec(line) as int) == MenuAction::Invalid,
{
}

/// The entries in the order in which the menu lists them.
pub open spec fn menu_listing() -> Seq<MenuAction> {
    seq![
        MenuAction::CreateWallet,
        MenuAction::AddKey,
        MenuAction::PrintAddress,
        MenuAction::CreateSpendingKey,
        MenuAction::GeneratePaymentAddress,
        MenuAction::SendTokens,
        MenuAction::CheckRevealed,
        MenuAction::Exit,
    ]
}

/// Choice `k` selects the `k`-th entry of the menu as it is listed, for every
/// `k` from 1 to 8.
pub proof fn lemma_choice_selects_listed_entry(k: int)
    requires
        1 <= k <= 8,
    ensures
        menu_action_spec(k) == menu_listing()[k - 1],
{
}

} // verus!
