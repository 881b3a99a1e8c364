use chainx_core::assetdef::Chain;
use chainx_core::assets::{pcx_token, AssetType};
use chainx_core::mock::new_test_ext;
use chainx_core::staking::{
    staking_reserve, staking_unreserve, unnominate_reserve, validate_trustee_entity, TrusteeEntity,
};

#[test]
fn stake_is_set_aside_withdrawn_and_freed() {
    let mut ledger = new_test_ext();
    let pcx = pcx_token();
    assert_eq!(staking_reserve(&mut ledger, &1, 10001), Err("balance too low for this account"));
    assert_eq!(staking_reserve(&mut ledger, &1, 4000), Ok(()));
    assert_eq!(ledger.asset_balance(&1, &pcx, AssetType::Free), 6000);
    assert_eq!(ledger.asset_balance(&1, &pcx, AssetType::ReservedStaking), 4000);
    assert_eq!(unnominate_reserve(&mut ledger, &1, 4001), Err("balance too low for this account"));
    assert_eq!(unnominate_reserve(&mut ledger, &1, 1500), Ok(()));
    assert_eq!(ledger.asset_balance(&1, &pcx, AssetType::ReservedStaking), 2500);
    assert_eq!(ledger.asset_balance(&1, &pcx, AssetType::ReservedStakingRevocation), 1500);
    assert_eq!(staking_unreserve(&mut ledger, &1, 1501), Err("balance too low for this account"));
    assert_eq!(staking_unreserve(&mut ledger, &1, 500), Ok(()));
    assert_eq!(ledger.asset_balance(&1, &pcx, AssetType::Free), 6500);
    assert_eq!(ledger.asset_balance(&1, &pcx, AssetType::ReservedStakingRevocation), 1000);
    assert_eq!(ledger.total_asset_balance(&pcx, AssetType::Free), 16500);
    assert_eq!(ledger.total_asset_balance(&pcx, AssetType::ReservedStaking), 2500);
    assert_eq!(ledger.total_asset_balance(&pcx, AssetType::ReservedStakingRevocation), 1000);
    assert_eq!(ledger.all_type_balance(&pcx), 20000);
    assert_eq!(ledger.pcx_total_balance(&1), 10000);
}

#[test]
fn trustee_is_known_by_a_public_key() {
    assert_eq!(validate_trustee_entity(&Chain::Bitcoin, &TrusteeEntity::Bitcoin(vec![2u8; 33])), Ok(()));
    assert_eq!(validate_trustee_entity(&Chain::Bitcoin, &TrusteeEntity::Bitcoin(vec![4u8; 65])), Ok(()));
    assert_eq!(
        validate_trustee_entity(&Chain::Bitcoin, &TrusteeEntity::Bitcoin(vec![4u8; 64])),
        Err("Valid pubkeys are either 33 or 65 bytes.")
    );
    assert_eq!(
        validate_trustee_entity(&Chain::Ethereum, &TrusteeEntity::Bitcoin(vec![2u8; 33])),
        Err("Unsupported chain.")
    );
    assert_eq!(
        validate_trustee_entity(&Chain::ChainX, &TrusteeEntity::Bitcoin(vec![2u8; 33])),
        Err("Unsupported chain.")
    );
}
