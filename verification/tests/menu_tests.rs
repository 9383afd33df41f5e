use namada_wallet::account::{account_revealed, payment_address_plan, PaymentAddressPlan};
use namada_wallet::menu::{menu_action, MenuAction};
use namada_wallet::text::parse_menu_choice;

#[test]
fn menu_numbers() {
    assert_eq!(menu_action(1), MenuAction::CreateWallet);
    assert_eq!(menu_action(2), MenuAction::AddKey);
    assert_eq!(menu_action(3), MenuAction::PrintAddress);
    assert_eq!(menu_action(4), MenuAction::CreateSpendingKey);
    assert_eq!(menu_action(5), MenuAction::GeneratePaymentAddress);
    assert_eq!(menu_action(6), MenuAction::SendTokens);
    assert_eq!(menu_action(7), MenuAction::CheckRevealed);
    assert_eq!(menu_action(8), MenuAction::Exit);
    assert_eq!(menu_action(0), MenuAction::Invalid);
    assert_eq!(menu_action(9), MenuAction::Invalid);
    assert_eq!(menu_action(usize::MAX), MenuAction::Invalid);
}

#[test]
fn unreadable_lines_are_invalid() {
    for line in ["", "x", "1.5", "-3", "seven\n"] {
        assert_eq!(menu_action(parse_menu_choice(line)), MenuAction::Invalid);
    }
    assert_eq!(menu_action(parse_menu_choice(" 6\n")), MenuAction::SendTokens);
}

#[test]
fn payment_address_plans() {
    assert_eq!(payment_address_plan(false, false), PaymentAddressPlan::Generate);
    assert_eq!(payment_address_plan(false, true), PaymentAddressPlan::Generate);
    assert_eq!(payment_address_plan(true, true), PaymentAddressPlan::Overwrite);
    assert_eq!(payment_address_plan(true, false), PaymentAddressPlan::Keep);
}

#[test]
fn revealed_accounts() {
    assert!(!account_revealed(None));
    assert!(!account_revealed(Some(0)));
    assert!(account_revealed(Some(1)));
    assert!(account_revealed(Some(3)));
}
