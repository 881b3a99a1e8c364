use chainx_core::assetdef::{is_valid_desc, is_valid_token, Asset, Chain};
use chainx_core::assets::{pcx_token, AssetErr, AssetType, BalanceMap, Balances, Event, Module};
use chainx_core::mock::{new_test_ext, Test};

fn xbtc() -> Vec<u8> {
    b"x-btc".to_vec()
}

fn ledger_with_xbtc() -> Module {
    let mut ledger = new_test_ext();
    let asset = Asset::new(xbtc(), b"Bitcoin".to_vec(), Chain::Bitcoin, 8, b"bitcoin on this chain".to_vec())
        .unwrap();
    assert_eq!(ledger.register_asset(asset, true, false), Ok(()));
    ledger
}

#[test]
fn issue_move_destroy_gives_exact_balances() {
    let mut ledger = ledger_with_xbtc();
    let a: u64 = 7;
    let token = xbtc();

    assert_eq!(ledger.issue(&token, &a, 1000), Ok(()));
    assert_eq!(ledger.asset_balance(&a, &token, AssetType::Free), 1000);
    assert_eq!(ledger.total_asset_balance(&token, AssetType::Free), 1000);
    assert_eq!(ledger.total_asset_balance(&token, AssetType::ReservedWithdrawal), 0);

    assert_eq!(
        ledger.move_balance(&token, &a, AssetType::Free, &a, AssetType::ReservedWithdrawal, 400),
        Ok(())
    );
    assert_eq!(ledger.asset_balance(&a, &token, AssetType::Free), 600);
    assert_eq!(ledger.asset_balance(&a, &token, AssetType::ReservedWithdrawal), 400);
    assert_eq!(ledger.total_asset_balance(&token, AssetType::Free), 600);
    assert_eq!(ledger.total_asset_balance(&token, AssetType::ReservedWithdrawal), 400);

    assert_eq!(ledger.destroy(&token, &a, 400), Ok(()));
    assert_eq!(ledger.asset_balance(&a, &token, AssetType::Free), 600);
    assert_eq!(ledger.asset_balance(&a, &token, AssetType::ReservedWithdrawal), 0);
    assert_eq!(ledger.total_asset_balance(&token, AssetType::Free), 600);
    assert_eq!(ledger.total_asset_balance(&token, AssetType::ReservedWithdrawal), 0);
    assert_eq!(ledger.all_type_balance(&token), 600);
    assert_eq!(ledger.all_type_balance_of(&a, &token), 600);
}

#[test]
fn totals_equal_sum_over_holders() {
    let mut ledger = ledger_with_xbtc();
    let token = xbtc();
    assert_eq!(ledger.issue(&token, &1, 300), Ok(()));
    assert_eq!(ledger.issue(&token, &2, 500), Ok(()));
    assert_eq!(ledger.issue(&token, &3, 7), Ok(()));
    assert_eq!(ledger.move_free_balance(&token, &1, &3, 100), Ok(()));
    assert_eq!(
        ledger.move_balance(&token, &2, AssetType::Free, &2, AssetType::ReservedStaking, 50),
        Ok(())
    );
    let sum_free: u64 = [1u64, 2, 3].iter().map(|w| ledger.asset_balance(w, &token, AssetType::Free)).sum();
    let sum_staked: u64 =
        [1u64, 2, 3].iter().map(|w| ledger.asset_balance(w, &token, AssetType::ReservedStaking)).sum();
    assert_eq!(sum_free, 757);
    assert_eq!(ledger.total_asset_balance(&token, AssetType::Free), sum_free);
    assert_eq!(sum_staked, 50);
    assert_eq!(ledger.total_asset_balance(&token, AssetType::ReservedStaking), sum_staked);
}

#[test]
fn move_that_would_go_negative_is_refused_and_changes_nothing() {
    let mut ledger = ledger_with_xbtc();
    let token = xbtc();
    assert_eq!(ledger.issue(&token, &1, 10), Ok(()));
    assert_eq!(ledger.move_free_balance(&token, &1, &2, 11), Err(AssetErr::NotEnough));
    assert_eq!(ledger.asset_balance(&1, &token, AssetType::Free), 10);
    assert_eq!(ledger.asset_balance(&2, &token, AssetType::Free), 0);
    assert_eq!(ledger.total_asset_balance(&token, AssetType::Free), 10);
    assert_eq!(ledger.destroy(&token, &1, 1), Err("reserved balance too low to destroy"));
    assert_eq!(ledger.asset_balance(&1, &token, AssetType::Free), 10);
}

#[test]
fn move_that_would_overflow_is_refused() {
    let mut ledger = ledger_with_xbtc();
    let token = xbtc();
    assert_eq!(ledger.issue(&token, &1, u64::MAX - 5), Ok(()));
    assert_eq!(ledger.issue(&token, &2, 7), Err("total free balance too high to issue"));
    assert_eq!(ledger.issue(&token, &1, 6), Err("free balance too high to issue"));
    assert_eq!(ledger.asset_balance(&2, &token, AssetType::Free), 0);
    assert_eq!(ledger.total_asset_balance(&token, AssetType::Free), u64::MAX - 5);
}

#[test]
fn receiver_overflow_is_reported_as_overflow() {
    let mut ledger = ledger_with_xbtc();
    let token = xbtc();
    assert_eq!(ledger.issue(&token, &1, u64::MAX - 5), Ok(()));
    assert_eq!(
        ledger.move_balance(&token, &1, AssetType::Free, &1, AssetType::ReservedDexSpot, u64::MAX - 5),
        Ok(())
    );
    assert_eq!(ledger.issue(&token, &1, 10), Ok(()));
    assert_eq!(
        ledger.move_balance(&token, &1, AssetType::Free, &1, AssetType::ReservedDexSpot, 10),
        Err(AssetErr::OverFlow)
    );
    assert_eq!(ledger.issue(&token, &2, 10), Ok(()));
    assert_eq!(
        ledger.move_balance(&token, &2, AssetType::Free, &2, AssetType::ReservedDexSpot, 10),
        Err(AssetErr::TotalAssetOverFlow)
    );
    assert_eq!(ledger.asset_balance(&2, &token, AssetType::Free), 10);
    assert_eq!(ledger.asset_balance(&2, &token, AssetType::ReservedDexSpot), 0);
}

#[test]
fn move_of_nothing_or_onto_itself_succeeds_without_checks() {
    let mut ledger = new_test_ext();
    let unknown = b"nope".to_vec();
    assert_eq!(ledger.move_balance(&unknown, &1, AssetType::Free, &1, AssetType::Free, 5), Ok(()));
    assert_eq!(ledger.move_balance(&unknown, &1, AssetType::Free, &2, AssetType::Free, 0), Ok(()));
    assert_eq!(
        ledger.move_balance(&unknown, &1, AssetType::Free, &2, AssetType::Free, 1),
        Err(AssetErr::InvalidToken)
    );
    assert_eq!(
        ledger.move_balance_with_checkflag(&unknown, &1, AssetType::Free, &2, AssetType::Free, 1, false),
        Err(AssetErr::NotEnough)
    );
}

#[test]
fn native_free_balance_is_the_account_balance() {
    let mut ledger = new_test_ext();
    let pcx = pcx_token();
    assert_eq!(Test::balances(), vec![(1u64, 10000u64), (2u64, 10000u64)]);
    assert_eq!(ledger.free_balance(&1, &pcx), 10000);
    assert_eq!(ledger.total_asset_balance(&pcx, AssetType::Free), 20000);
    assert_eq!(
        ledger.move_balance_with_checkflag(&pcx, &1, AssetType::Free, &1, AssetType::ReservedStaking, 2500, false),
        Ok(())
    );
    assert_eq!(ledger.free_balance(&1, &pcx), 7500);
    assert_eq!(ledger.asset_balance(&1, &pcx, AssetType::ReservedStaking), 2500);
    assert_eq!(ledger.total_asset_balance(&pcx, AssetType::Free), 17500);
    assert_eq!(ledger.total_asset_balance(&pcx, AssetType::ReservedStaking), 2500);
    assert_eq!(ledger.all_type_balance(&pcx), 20000);
    assert_eq!(ledger.all_type_balance_of(&1, &pcx), 10000);
    let all = ledger.balance_of(&1, &pcx);
    assert_eq!(all, Balances { free: 7500, reserved_staking: 2500, ..Balances::zero() });
}

#[test]
fn revoked_asset_keeps_balances_but_refuses_issue_and_move() {
    let mut ledger = ledger_with_xbtc();
    let token = xbtc();
    assert_eq!(ledger.issue(&token, &1, 10), Ok(()));
    assert_eq!(ledger.revoke_asset(&token), Ok(()));
    assert_eq!(ledger.asset_balance(&1, &token, AssetType::Free), 10);
    assert_eq!(ledger.is_valid_asset(&token), Err("not a valid token"));
    assert_eq!(ledger.issue(&token, &1, 1), Err("not a valid token"));
    assert_eq!(ledger.move_free_balance(&token, &1, &2, 1), Err(AssetErr::InvalidToken));
    assert!(ledger.get_asset(&token).is_err());
    assert_eq!(ledger.assets(), vec![pcx_token(), token.clone()]);
    assert_eq!(ledger.valid_assets(), vec![pcx_token()]);
    assert_eq!(ledger.revoke_asset(&b"other".to_vec()), Err("this token dose not register yet or is invalid"));
}

#[test]
fn register_refuses_a_second_asset_of_the_same_token() {
    let mut ledger = ledger_with_xbtc();
    let again = Asset::new(xbtc(), b"Bitcoin".to_vec(), Chain::Bitcoin, 8, Vec::new()).unwrap();
    assert_eq!(ledger.register_asset(again, true, false), Err("already has this token"));
    assert_eq!(ledger.is_valid_asset(&b"x-eth".to_vec()), Err("not a registered token"));
}

#[test]
fn assets_are_listed_chain_by_chain() {
    let mut ledger = new_test_ext();
    let eth = Asset::new(b"x-eth".to_vec(), b"Ether".to_vec(), Chain::Ethereum, 18, Vec::new()).unwrap();
    let btc = Asset::new(b"x-btc".to_vec(), b"Bitcoin".to_vec(), Chain::Bitcoin, 8, Vec::new()).unwrap();
    let off = Asset::new(b"x-eos".to_vec(), b"EOS".to_vec(), Chain::Ethereum, 4, Vec::new()).unwrap();
    assert_eq!(ledger.register_asset(eth, true, false), Ok(()));
    assert_eq!(ledger.register_asset(btc, true, false), Ok(()));
    assert_eq!(ledger.register_asset(off, false, false), Ok(()));
    assert_eq!(ledger.assets(), vec![pcx_token(), b"x-btc".to_vec(), b"x-eth".to_vec(), b"x-eos".to_vec()]);
    assert_eq!(ledger.valid_assets(), vec![pcx_token(), b"x-btc".to_vec(), b"x-eth".to_vec()]);
    assert_eq!(ledger.asset_list(Chain::ChainX), vec![pcx_token()]);
    assert_eq!(ledger.asset_list(Chain::Ethereum), vec![b"x-eth".to_vec(), b"x-eos".to_vec()]);
    let all = ledger.all_assets();
    assert_eq!(all.len(), 4);
    assert_eq!(all[3].0.token(), b"x-eos".to_vec());
    assert_eq!(all[3].0.precision(), 4);
    assert_eq!(all[3].0.chain(), Chain::Ethereum);
    assert!(!all[3].1);
    assert!(all[0].1);
    assert_eq!(ledger.issue(&b"x-eth".to_vec(), &5, 9), Ok(()));
    let of5 = ledger.valid_assets_of(&5);
    assert_eq!(of5.len(), 2);
    assert_eq!(of5[0].0, pcx_token());
    assert_eq!(of5[0].1.free, 0);
    assert_eq!(of5[1].0, b"x-eth".to_vec());
    assert_eq!(of5[1].1.free, 9);
    assert!(ledger.valid_assets_of(&6).is_empty());
}

#[test]
fn token_and_description_checks() {
    assert_eq!(is_valid_token(b"x-btc"), Ok(()));
    assert_eq!(is_valid_token(b"A.b|c~9"), Ok(()));
    assert_eq!(is_valid_token(b""), Err("symbol length too long or zero"));
    assert_eq!(is_valid_token(&[b'a'; 33]), Err("symbol length too long or zero"));
    assert_eq!(is_valid_token(&[b'a'; 32]), Ok(()));
    assert_eq!(
        is_valid_token(b"x btc"),
        Err("not a valid symbol char for number, capital/small letter or '-', '.', '|', '~'")
    );
    assert_eq!(is_valid_desc(&[b' '; 128]), Ok(()));
    assert_eq!(is_valid_desc(&[b' '; 129]), Err("token desc length too long"));
    assert_eq!(is_valid_desc(&[19u8]), Err("not a valid ascii visible char"));
    assert_eq!(is_valid_desc(&[0x7fu8]), Err("not a valid ascii visible char"));
    assert!(Asset::new(b"bad token".to_vec(), b"n".to_vec(), Chain::ChainX, 0, Vec::new()).is_err());
}

#[test]
fn asset_error_texts() {
    assert_eq!(AssetErr::NotEnough.info(), "balance too low for this account");
    assert_eq!(AssetErr::OverFlow.info(), "balance too high for this account");
    assert_eq!(AssetErr::TotalAssetOverFlow.info(), "balance too low for this asset");
    assert_eq!(AssetErr::TotalAssetNotEnough.info(), "balance too high for this asset");
    assert_eq!(AssetErr::InvalidToken.info(), "not a valid token for this account");
    assert_eq!(AssetErr::InvalidAccount.info(), "account Locked");
    assert_eq!(AssetType::default(), AssetType::Free);
    assert_eq!(AssetType::iterator().len(), 6);
    assert_eq!(Module::should_not_free_type(AssetType::Free), Err("should not be free type here"));
    assert_eq!(Module::should_not_free_type(AssetType::ReservedStaking), Ok(()));
    assert_eq!(Module::should_not_chainx(&pcx_token()), Err("should not use chainx token here"));
    assert_eq!(Module::should_not_chainx(&b"BTC".to_vec()), Ok(()));
}

#[test]
fn native_moves_need_no_flag_once_the_token_is_registered() {
    let mut ledger = new_test_ext();
    assert_eq!(ledger.pcx_free_balance(&1), 10000);
    assert_eq!(ledger.pcx_move_free_balance(&1, &9, 1), Ok(()));
    assert_eq!(ledger.pcx_free_balance(&9), 1);
    assert_eq!(ledger.pcx_move_balance(&1, AssetType::Free, &1, AssetType::ReservedStaking, 99), Ok(()));
    assert_eq!(ledger.pcx_total_balance(&1), 9999);
    assert_eq!(ledger.pcx_issue(&9, 5), Ok(()));
    assert_eq!(ledger.all_type_balance(&pcx_token()), 20005);
    assert_eq!(ledger.total_asset_balance(&pcx_token(), AssetType::Free), 20005 - 99);
    assert_eq!(ledger.pcx_move_free_balance(&9, &1, 7), Err(AssetErr::NotEnough));
    assert_eq!(ledger.pcx_issue(&9, u64::MAX), Err("free balance too high to issue"));
    assert_eq!(ledger.pcx_issue(&77, u64::MAX - 100), Err("total free balance too high to issue"));
    assert_eq!(ledger.pcx_free_balance(&77), 0);
}

#[test]
fn transfer_moves_free_balance_and_names_its_refusal() {
    let mut ledger = ledger_with_xbtc();
    let token = xbtc();
    ledger.issue(&token, &1, 10).unwrap();
    assert_eq!(ledger.transfer(&1, &2, &token, 4), Ok(()));
    assert_eq!(ledger.free_balance(&1, &token), 6);
    assert_eq!(ledger.free_balance(&2, &token), 4);
    assert_eq!(ledger.transfer(&1, &1, &token, 400), Ok(()));
    assert_eq!(ledger.free_balance(&1, &token), 6);
    assert_eq!(ledger.transfer(&1, &2, &token, 7), Err("balance too low for this account"));
    assert_eq!(ledger.transfer(&1, &2, &b"zzz".to_vec(), 7), Err("not a valid token for this account"));
    assert_eq!(ledger.free_balance(&2, &token), 4);
}

#[test]
fn root_sets_balances_and_totals_follow() {
    let mut ledger = ledger_with_xbtc();
    let token = xbtc();
    ledger.issue(&token, &1, 10).unwrap();
    ledger.issue(&token, &2, 5).unwrap();
    assert_eq!(
        ledger.set_balance_by_root(
            &1,
            &token,
            BalanceMap {
                free: Some(3),
                reserved_dex_spot: Some(40),
                reserved_staking: Some(0),
                ..BalanceMap::empty()
            }
        ),
        Ok(())
    );
    assert_eq!(ledger.free_balance(&1, &token), 3);
    assert_eq!(ledger.asset_balance(&1, &token, AssetType::ReservedDexSpot), 40);
    assert_eq!(ledger.total_asset_balance(&token, AssetType::Free), 8);
    assert_eq!(ledger.total_asset_balance(&token, AssetType::ReservedDexSpot), 40);
    assert_eq!(ledger.set_balance(&2, &token, AssetType::Free, 6), Ok(()));
    assert_eq!(ledger.total_asset_balance(&token, AssetType::Free), 9);

    // nothing is written unless every balance can be set
    ledger.issue(&token, &3, u64::MAX - 100).unwrap();
    assert_eq!(
        ledger.set_balance_by_root(
            &1,
            &token,
            BalanceMap { reserved_dex_spot: Some(7), free: Some(1000), ..BalanceMap::empty() }
        ),
        Err("old total balance too high to add value")
    );
    assert_eq!(ledger.asset_balance(&1, &token, AssetType::ReservedDexSpot), 40);
    assert_eq!(ledger.free_balance(&1, &token), 3);
    assert_eq!(ledger.total_asset_balance(&token, AssetType::ReservedDexSpot), 40);

    // the native token: the total issuance follows
    let pcx = pcx_token();
    assert_eq!(
        ledger.set_balance_by_root(
            &1,
            &pcx,
            BalanceMap { free: Some(500), reserved_staking: Some(20), ..BalanceMap::empty() }
        ),
        Ok(())
    );
    assert_eq!(ledger.pcx_free_balance(&1), 500);
    assert_eq!(ledger.all_type_balance(&pcx), 10520);
    assert_eq!(ledger.total_asset_balance(&pcx, AssetType::Free), 10500);
    assert_eq!(ledger.total_asset_balance(&pcx, AssetType::ReservedStaking), 20);
}

#[test]
fn every_change_is_told() {
    let mut ledger = new_test_ext();
    let told = ledger.take_events();
    assert_eq!(told.len(), 3);
    assert!(matches!(&told[0], Event::Register(t, false) if *t == pcx_token()));
    assert!(matches!(&told[1], Event::Issue(t, 1, 10000) if *t == pcx_token()));
    assert!(ledger.take_events().is_empty());

    let asset = Asset::new(xbtc(), b"Bitcoin".to_vec(), Chain::Bitcoin, 8, Vec::new()).unwrap();
    ledger.register_asset(asset, false, true).unwrap();
    let told = ledger.take_events();
    assert_eq!(told.len(), 2);
    assert!(matches!(&told[0], Event::Register(t, true) if *t == xbtc()));
    assert!(matches!(&told[1], Event::Revoke(t) if *t == xbtc()));
    assert_eq!(ledger.is_valid_asset(&xbtc()), Err("not a valid token"));

    let mut ledger = ledger_with_xbtc();
    ledger.take_events();
    let token = xbtc();
    ledger.issue(&token, &1, 10).unwrap();
    ledger.move_balance(&token, &1, AssetType::Free, &2, AssetType::ReservedWithdrawal, 4).unwrap();
    ledger.destroy(&token, &2, 3).unwrap();
    ledger.set_balance(&1, &token, AssetType::Free, 7).unwrap();
    // what is refused, and what changes nothing, is not told
    assert!(ledger.destroy(&token, &2, 3).is_err());
    ledger.move_balance(&token, &1, AssetType::Free, &1, AssetType::Free, 4).unwrap();
    ledger.set_balance(&1, &token, AssetType::Free, 7).unwrap();
    let told = ledger.take_events();
    assert_eq!(told.len(), 4);
    assert!(matches!(&told[0], Event::Issue(t, 1, 10) if *t == token));
    assert!(matches!(
        &told[1],
        Event::Move(t, 1, AssetType::Free, 2, AssetType::ReservedWithdrawal, 4) if *t == token
    ));
    assert!(matches!(&told[2], Event::Destory(t, 2, 3) if *t == token));
    assert!(matches!(&told[3], Event::SetBalance(t, 1, AssetType::Free, 7) if *t == token));
}

#[test]
fn balances_to_set_come_type_by_type() {
    let map = BalanceMap {
        reserved_dex_future: Some(6),
        free: Some(1),
        reserved_withdrawal: Some(4),
        ..BalanceMap::empty()
    };
    assert_eq!(
        map.to_entries(),
        vec![(AssetType::Free, 1), (AssetType::ReservedWithdrawal, 4), (AssetType::ReservedDexFuture, 6)]
    );
    assert!(BalanceMap::empty().to_entries().is_empty());
    let mut ledger = ledger_with_xbtc();
    ledger.take_events();
    assert_eq!(ledger.set_balance_by_root(&1, &xbtc(), map), Ok(()));
    let told = ledger.take_events();
    assert_eq!(told.len(), 3);
    assert!(matches!(&told[0], Event::SetBalance(_, 1, AssetType::Free, 1)));
    assert!(matches!(&told[2], Event::SetBalance(_, 1, AssetType::ReservedDexFuture, 6)));
}
