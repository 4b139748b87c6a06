//! Accounts of the token ledger, as far as the pool has to recognise them.
//!
//! The ledger names an account by 32 bytes that it derives from the owner
//! and a subaccount. The derivation is the ledger library's; this file
//! calls it and gives its results a name.

use vstd::prelude::*;
use candid::Principal;
use ic_ledger_types::{AccountIdentifier, Subaccount};
use crate::principal::PrincipalId;

verus! {

/// Length of a subaccount and of an account identifier.
pub const ACCOUNT_BYTES: usize = 32;

/// The account identifier that the ledger derives from an owner and a
/// subaccount of 32 bytes.
pub uninterp spec fn account_id_of(owner: Seq<u8>, subaccount: Seq<u8>) -> Seq<u8>;

/// The subaccount that stands for a principal: its length, its bytes, and
/// zeros up to 32 bytes.
pub open spec fn subaccount_for(principal: Seq<u8>) -> Seq<u8> {
    seq![principal.len() as u8] + principal + Seq::new(
        (31 - principal.len()) as nat,
        |i: int| 0u8,
    )
}

/// `Subaccount::from` a principal: the first byte is the length of the
/// principal, its bytes follow, and the rest of the 32 bytes is zero.
#[verifier::external_body]
pub(crate) fn principal_subaccount(principal: &PrincipalId) -> (r: Vec<u8>)
    ensures
        r@ == subaccount_for(principal@),
        r@.len() == ACCOUNT_BYTES,
{
    Subaccount::from(Principal::from_slice(principal.as_slice())).0.to_vec()
}

/// `AccountIdentifier::new`: the 32 bytes by which the ledger names the
/// account of `owner` under `subaccount`.
#[verifier::external_body]
pub(crate) fn derive_account_id(owner: &PrincipalId, subaccount: &Vec<u8>) -> (r: Vec<u8>)
    requires
        subaccount@.len() == ACCOUNT_BYTES,
    ensures
        r@ == account_id_of(owner@, subaccount@),
        r@.len() == ACCOUNT_BYTES,
{
    let mut bytes = [0u8; 32];
    bytes.copy_from_slice(subaccount.as_slice());
    let owner = Principal::from_slice(owner.as_slice());
    AccountIdentifier::new(&owner, &Subaccount(bytes)).as_bytes().to_vec()
}

/// The default subaccount: 32 zero bytes.
pub fn default_subaccount() -> (r: Vec<u8>)
    ensures
        r@ == Seq::new(32, |i: int| 0u8),
{
    let mut r: Vec<u8> = Vec::new();
    let mut i: usize = 0;
    while i < ACCOUNT_BYTES
        invariant
            i <= ACCOUNT_BYTES,
            r@ == Seq::new(i as nat, |j: int| 0u8),
        decreases ACCOUNT_BYTES - i,
    {
        r.push(0);
        assert(r@ =~= Seq::new((i + 1) as nat, |j: int| 0u8));
        i += 1;
    }
    r
}

/// The identifier of the default account of `owner`.
pub fn default_account(owner: &PrincipalId) -> (r: Vec<u8>)
    ensures
        r@ == account_id_of(owner@, Seq::new(32, |i: int| 0u8)),
        r@.len() == ACCOUNT_BYTES,
{
    let subaccount = default_subaccount();
    derive_account_id(owner, &subaccount)
}

/// The identifier of the account that `owner` keeps for `beneficiary`.
pub fn account_for(owner: &PrincipalId, beneficiary: &PrincipalId) -> (r: Vec<u8>)
    ensures
        r@ == account_id_of(owner@, subaccount_for(beneficiary@)),
        r@.len() == ACCOUNT_BYTES,
{
    let subaccount = principal_subaccount(beneficiary);
    derive_account_id(owner, &subaccount)
}

} // verus!
