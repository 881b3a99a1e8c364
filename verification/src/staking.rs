//! What staking asks of the balance store: native balance is set aside for a
//! stake, set aside again when the stake is withdrawn, and freed at last.

use vstd::prelude::*;
use crate::assetdef::Chain;
use crate::assets::{pcx, AssetErr, AssetType, Module};
use crate::primitives::{AccountId, Balance};

verus! {

/// What a trustee is known by on another chain.
#[derive(Debug)]
pub enum TrusteeEntity {
    /// A public key.
    Bitcoin(Vec<u8>),
}

/// Verdict on the entity of a trustee on `chain`: only Bitcoin has trustees, and a public
/// key has 33 or 65 bytes.
pub open spec fn entity_verdict(chain: Chain, entity: TrusteeEntity) -> Result<(), &'static str> {
    match chain {
        Chain::Bitcoin => match entity {
            TrusteeEntity::Bitcoin(pubkey) => if pubkey@.len() != 33 && pubkey@.len() != 65 {
                Err("Valid pubkeys are either 33 or 65 bytes.")
            } else {
                Ok(())
            },
        },
        _ => Err("Unsupported chain."),
    }
}

/// Checks what a trustee is to be known by on `chain`.
pub fn validate_trustee_entity(chain: &Chain, entity: &TrusteeEntity) -> (r: Result<(), &'static str>)
    ensures
        r == entity_verdict(*chain, *entity),
{
    match chain {
        Chain::Bitcoin => match entity {
            TrusteeEntity::Bitcoin(pubkey) => {
                if pubkey.len() != 33 && pubkey.len() != 65 {
                    return Err("Valid pubkeys are either 33 or 65 bytes.");
                }
            },
        },
        _ => {
            return Err("Unsupported chain.");
        },
    }
    Ok(())
}

/// A verdict of the balance store, with the refusal in words.
pub open spec fn in_words(verdict: Result<(), AssetErr>) -> Result<(), &'static str> {
    match verdict {
        Ok(()) => Ok(()),
        Err(e) => Err(e.spec_info()),
    }
}

/// Moves `value` of the native token of `who` from one type of balance to another.
fn shift(assets: &mut Module, who: &AccountId, from_type: AssetType, to_type: AssetType, value: Balance) -> (r:
    Result<(), &'static str>)
    requires
        old(assets).wf(),
    ensures
        final(assets).wf(),
        r == in_words(old(assets)@.move_verdict(pcx(), *who, from_type, *who, to_type, value, true)),
        r.is_ok() ==> final(assets)@ == old(assets)@.moved(pcx(), *who, from_type, *who, to_type, value),
        r.is_err() ==> *final(assets) == *old(assets),
{
    match assets.pcx_move_balance(who, from_type, who, to_type, value) {
        Ok(()) => Ok(()),
        Err(e) => Err(e.info()),
    }
}

/// Sets `value` of the free native balance of `who` aside for a stake.
pub fn staking_reserve(assets: &mut Module, who: &AccountId, value: Balance) -> (r: Result<
    (),
    &'static str,
>)
    requires
        old(assets).wf(),
    ensures
        final(assets).wf(),
        r == in_words(
            old(assets)@.move_verdict(
                pcx(),
                *who,
                AssetType::Free,
                *who,
                AssetType::ReservedStaking,
                value,
                true,
            ),
        ),
        r.is_ok() ==> final(assets)@ == old(assets)@.moved(
            pcx(),
            *who,
            AssetType::Free,
            *who,
            AssetType::ReservedStaking,
            value,
        ),
        r.is_err() ==> *final(assets) == *old(assets),
{
    shift(assets, who, AssetType::Free, AssetType::ReservedStaking, value)
}

/// Sets `value` of the stake of `who` aside for its withdrawal.
pub fn unnominate_reserve(assets: &mut Module, who: &AccountId, value: Balance) -> (r: Result<
    (),
    &'static str,
>)
    requires
        old(assets).wf(),
    ensures
        final(assets).wf(),
        r == in_words(
            old(assets)@.move_verdict(
                pcx(),
                *who,
                AssetType::ReservedStaking,
                *who,
                AssetType::ReservedStakingRevocation,
                value,
                true,
            ),
        ),
        r.is_ok() ==> final(assets)@ == old(assets)@.moved(
            pcx(),
            *who,
            AssetType::ReservedStaking,
            *who,
            AssetType::ReservedStakingRevocation,
            value,
        ),
        r.is_err() ==> *final(assets) == *old(assets),
{
    shift(assets, who, AssetType::ReservedStaking, AssetType::ReservedStakingRevocation, value)
}

/// Frees `value` of what `who` has withdrawn from a stake.
pub fn staking_unreserve(assets: &mut Module, who: &AccountId, value: Balance) -> (r: Result<
    (),
    &'static str,
>)
    requires
        old(assets).wf(),
    ensures
        final(assets).wf(),
        r == in_words(
            old(assets)@.move_verdict(
                pcx(),
                *who,
                AssetType::ReservedStakingRevocation,
                *who,
                AssetType::Free,
                value,
                true,
            ),
        ),
        r.is_ok() ==> final(assets)@ == old(assets)@.moved(
            pcx(),
            *who,
            AssetType::ReservedStakingRevocation,
            *who,
            AssetType::Free,
            value,
        ),
        r.is_err() ==> *final(assets) == *old(assets),
{
    shift(assets, who, AssetType::ReservedStakingRevocation, AssetType::Free, value)
}

} // verus!
