//! Decisions about accounts and addresses of the wallet.

use vstd::prelude::*;

verus! {

/// What to do about the payment address of an alias.
#[derive(Debug, Clone, Copy, PartialEq, Eq, Structural)]
pub enum PaymentAddressPlan {
    /// No address is stored under the alias: generate one.
    Generate,
    /// An address is stored and replacing it is forced: generate a new one.
    Overwrite,
    /// An address is stored and replacing it is not forced: keep it.
    Keep,
}

/// The plan for an alias, given whether the wallet already holds an address
/// under it and whether replacing that address is forced.
pub open spec fn payment_address_plan_spec(address_exists: bool, force: bool) -> PaymentAddressPlan {
    if !address_exists {
        PaymentAddressPlan::Generate
    } else if force {
        PaymentAddressPlan::Overwrite
    } else {
        PaymentAddressPlan::Keep
    }
}

/// Decides whether a payment address is generated for an alias.
pub fn payment_address_plan(address_exists: bool, force: bool) -> (plan: PaymentAddressPlan)
    ensures
        plan == payment_address_plan_spec(address_exists, force),
{
    if !address_exists {
        PaymentAddressPlan::Generate
    } else if force {
        PaymentAddressPlan::Overwrite
    } else {
        PaymentAddressPlan::Keep
    }
}

/// An existing address is kept exactly when replacing it is not forced; with
/// force, an address is always generated; and the plan is a fresh address
/// exactly when the alias holds none.
pub proof fn lemma_force_always_generates(address_exists: bool)
    ensures
        payment_address_plan_spec(address_exists, true) != PaymentAddressPlan::Keep,
        payment_address_plan_spec(address_exists, false) == PaymentAddressPlan::Keep
            <==> address_exists,
        (payment_address_plan_spec(address_exists, true) == PaymentAddressPlan::Generate)
            <==> !address_exists,
        (payment_address_plan_spec(address_exists, false) == PaymentAddressPlan::Generate)
            <==> !address_exists,
{
}

/// Whether an account has revealed its public key, given the number of public
/// keys that the chain holds for it (`None` where the chain knows no such
/// account): it has when at least one key is on chain.
pub fn account_revealed(public_key_count: Option<usize>) -> (revealed: bool)
    ensures
        revealed == (public_key_count matches Some(n) && n > 0),
{
    match public_key_count {
        Some(n) => n != 0,
        None => false,
    }
}

} // verus!
