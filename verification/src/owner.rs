//! Whether the wallet of the bot may run the arbitrage contract.
use vstd::prelude::*;

use crate::abi::{address_in, decode_address};
use crate::address::Address;
use crate::table::Key;

verus! {

/// What a contract says of its owner.
#[derive(Clone, Copy, Debug)]
pub enum Ownership {
    /// The wallet owns the contract.
    Owner,
    /// Another account owns the contract.
    Foreign(Address),
    /// The reply names no account.
    Unreadable,
}

/// Whether a contract is asked for its owner: one with code. One that is not
/// deployed yet passes without being asked.
pub fn owner_needed(code: &[u8]) -> (r: bool)
    ensures
        r == (code@.len() > 0),
{
    code.len() > 0
}

/// Reads the owner in the reply to `owner()` and compares the wallet with it.
pub fn check_owner(reply: &[u8], bot: &Address) -> (r: Ownership)
    ensures
        match address_in(reply@) {
            None => r is Unreadable,
            Some(owner) => if owner == bot@ {
                r is Owner
            } else {
                r matches Ownership::Foreign(a) && a@ == owner
            },
        },
{
    match decode_address(reply) {
        None => Ownership::Unreadable,
        Some(owner) => {
            if owner.same(bot) {
                Ownership::Owner
            } else {
                Ownership::Foreign(owner)
            }
        },
    }
}

/// The wallet owns a contract exactly where the reply of the contract names it;
/// another account that the reply names is told, and a reply without a whole word is
/// not readable.
pub proof fn owner_is_the_account_in_the_reply(reply: &[u8], bot: Address, r: Ownership)
    requires
        call_ensures(check_owner, (reply, &bot), r),
    ensures
        r is Owner <==> reply@.len() >= 32 && reply@.subrange(12, 32) == bot@,
        r is Unreadable <==> reply@.len() < 32,
        r matches Ownership::Foreign(other) ==> other@ == reply@.subrange(12, 32) && other@ != bot@,
{
}

} // verus!
