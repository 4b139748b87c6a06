//! The canisters the pool deals with.

use vstd::prelude::*;
use crate::principal::PrincipalId;

verus! {

/// The mining resource.
pub const MAINNET_BOB_CANISTER_ID: [u8; 10] = [0x00, 0x00, 0x00, 0x00, 0x02, 0x40, 0x00, 0x55, 0x01, 0x01];

/// The ledger in which rewards are paid.
pub const MAINNET_BOB_LEDGER_CANISTER_ID: [u8; 10] = [0x00, 0x00, 0x00, 0x00, 0x02, 0x40, 0x00, 0x59, 0x01, 0x01];

/// The ledger in which deposits are made.
pub const MAINNET_LEDGER_CANISTER_ID: [u8; 10] = [0x00, 0x00, 0x00, 0x00, 0x00, 0x00, 0x00, 0x02, 0x01, 0x01];

/// The index of the ledger in which deposits are made.
pub const MAINNET_LEDGER_INDEX_CANISTER_ID: [u8; 10] = [0x00, 0x00, 0x00, 0x00, 0x00, 0x00, 0x00, 0x0B, 0x01, 0x01];

/// The canister that turns deposits into cycles.
pub const MAINNET_CYCLE_MINTER_CANISTER_ID: [u8; 10] = [0x00, 0x00, 0x00, 0x00, 0x00, 0x00, 0x00, 0x04, 0x01, 0x01];

/// The principal of a canister with a ten-byte identifier.
pub fn canister(id: &[u8; 10]) -> (r: PrincipalId)
    ensures
        r@ == id@,
{
    match PrincipalId::from_slice(id.as_slice()) {
        Some(p) => p,
        None => PrincipalId::management_canister(),
    }
}

} // verus!
