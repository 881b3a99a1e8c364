//! A small balance store to start examples and tests from.

use vstd::prelude::*;
use crate::assetdef::{Asset, AssetView, Chain};
use crate::assets::{pcx, pcx_token, AssetType, Module};
use crate::primitives::{AccountId, Balance};

verus! {

/// The accounts that examples and tests start with.
#[derive(Clone, Copy, PartialEq, Eq, Debug)]
pub struct Test;

impl Test {
    /// The accounts and what each holds of the native token.
    pub open spec fn spec_balances() -> Seq<(AccountId, Balance)> {
        seq![(1u64, 10000u64), (2u64, 10000u64)]
    }

    pub fn balances() -> (b: Vec<(AccountId, Balance)>)
        ensures
            b@ == Test::spec_balances(),
    {
        let mut b: Vec<(AccountId, Balance)> = Vec::new();
        b.push((1u64, 10000u64));
        b.push((2u64, 10000u64));
        assert(b@ =~= Test::spec_balances());
        b
    }

    /// The native token as a registered asset.
    pub open spec fn native_asset() -> AssetView {
        AssetView {
            token: pcx(),
            token_name: pcx(),
            chain: Chain::ChainX,
            precision: 8,
            desc: Seq::empty(),
        }
    }
}

/// A balance store at block 0 in which the native token is registered, the accounts of
/// [`Test`] hold their balances, and nothing else exists.
pub fn new_test_ext() -> (ledger: Module)
    ensures
        ledger.wf(),
        ledger@ == Module::new_state(0).registered(Test::native_asset(), true, false).issued(
            pcx(),
            1,
            10000,
        ).issued(pcx(), 2, 10000),
        ledger@.asset_verdict(pcx()).is_ok(),
        ledger@.balance(1, pcx(), AssetType::Free) == 10000,
        ledger@.balance(2, pcx(), AssetType::Free) == 10000,
        ledger@.total(pcx(), AssetType::Free) == 20000,
{
    let mut ledger = Module::new(0);
    let token = pcx_token();
    proof {
        assert(pcx().len() == 3);
        assert(crate::assetdef::token_verdict(pcx()).is_ok()) by {
            assert(pcx()[0] == 0x50 && pcx()[1] == 0x43 && pcx()[2] == 0x58);
        }
    }
    match Asset::new(pcx_token(), pcx_token(), Chain::ChainX, 8, Vec::new()) {
        Ok(asset) => {
            let _ = ledger.register_asset(asset, true, false);
        },
        Err(_) => {},
    }
    let accounts = Test::balances();
    let _ = ledger.issue(&token, &accounts[0].0, accounts[0].1);
    let _ = ledger.issue(&token, &accounts[1].0, accounts[1].1);
    proof {
        crate::assets::Balances::lemma_get_with();
    }
    ledger
}

} // verus!
