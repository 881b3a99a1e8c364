use chainx_core::assets::{pcx_token, AssetType};
use chainx_core::mock::new_test_ext;
use chainx_core::tokenbalances::{is_valid_symbol, is_valid_token_desc, Module, Token, TokenErr};

fn tokens() -> Module {
    let mut m = Module::new(new_test_ext(), 10, 999);
    assert_eq!(m.register_token(Token::new(b"x-btc".to_vec(), b"btc token".to_vec(), 8)), Ok(()));
    assert_eq!(m.register_token(Token::new(b"x-eth".to_vec(), b"eth token".to_vec(), 4)), Ok(()));
    m
}

#[test]
fn token_parts_and_checks() {
    let mut t = Token::new(b"x-eos".to_vec(), b"eos token".to_vec(), 4);
    assert_eq!(t.symbol(), b"x-eos".to_vec());
    assert_eq!(t.token_desc(), b"eos token".to_vec());
    assert_eq!(t.precision(), 4);
    assert_eq!(t.is_valid(), Ok(()));
    t.set_token_desc(&vec![7u8]);
    assert_eq!(t.token_desc(), vec![7u8]);
    assert_eq!(t.is_valid(), Err("not a valid ascii visible char"));
    assert_eq!(Token::new(Vec::new(), Vec::new(), 0).is_valid(), Err("symbol length too long or zero"));
    assert_eq!(is_valid_symbol(b"x-eos"), Ok(()));
    assert_eq!(
        is_valid_symbol(b"x_eos"),
        Err("not a valid symbol char for number, capital/small letter or '-', '.', '|', '~'")
    );
    assert_eq!(is_valid_token_desc(&[b'a'; 129]), Err("token desc length too long"));
    assert_eq!(TokenErr::NotEnough.info(), "free token too low");
    assert_eq!(TokenErr::OverFlow.info(), "overflow for this value");
    assert_eq!(TokenErr::InvalidToken.info(), "not a valid token for this account");
    assert_eq!(TokenErr::InvalidAccount.info(), "Account Locked");
}

#[test]
fn tokens_are_registered_listed_and_cancelled() {
    let mut m = tokens();
    assert_eq!(m.token_list(), vec![pcx_token(), b"x-btc".to_vec(), b"x-eth".to_vec()]);
    assert_eq!(
        m.register_token(Token::new(b"x-btc".to_vec(), Vec::new(), 8)),
        Err("already has this token symbol")
    );
    assert_eq!(m.register_token(Token::new(b"x btc".to_vec(), Vec::new(), 8)).is_err(), true);
    assert_eq!(m.cancel_token(&b"x-eth".to_vec()), Ok(()));
    assert_eq!(m.cancel_token(&b"x-eos".to_vec()), Err("this token symbol dose not register yet or is invalid"));
    assert_eq!(m.cancel_token(&Vec::new()), Err("symbol length too long or zero"));
    assert_eq!(m.token_list().len(), 3);
    assert_eq!(m.valid_token_list(), vec![pcx_token(), b"x-btc".to_vec()]);
    assert_eq!(m.is_valid_token(&b"x-btc".to_vec()), Ok(()));
    assert_eq!(m.is_valid_token(&b"x-eth".to_vec()), Err("not a valid token"));
    assert_eq!(m.is_valid_token(&b"x-eos".to_vec()), Err("not a registered token"));
    assert_eq!(
        m.is_valid_token_for(&1, &b"x-btc".to_vec()),
        Err("not a existed token in this account token list")
    );
    assert_eq!(m.is_valid_token_for(&1, &pcx_token()), Ok(()));
}

#[test]
fn issue_reserve_unreserve_destroy() {
    let mut m = tokens();
    let btc = b"x-btc".to_vec();
    assert_eq!(m.issue(&1, &pcx_token(), 5), Err("can't issue chainx token"));
    assert_eq!(m.issue(&1, &b"x-eos".to_vec(), 5), Err("not a registered token"));
    assert_eq!(m.issue(&1, &btc, 50), Ok(()));
    assert_eq!(m.is_valid_token_for(&1, &btc), Ok(()));
    assert_eq!(m.issue(&1, &btc, u64::MAX), Err("free token too high to issue"));
    assert_eq!(m.issue(&2, &btc, u64::MAX), Err("total free token too high to issue"));
    assert_eq!(m.free_token(&(1, btc.clone())), 50);
    assert_eq!(m.total_free_token(&btc), 50);

    assert_eq!(m.reserve(&1, &btc, 51), Err("free token too low to reserve"));
    assert_eq!(m.reserve(&2, &btc, 1), Err("not a existed token in this account token list"));
    assert_eq!(m.reserve(&1, &btc, 20), Ok(()));
    assert_eq!(m.free_token(&(1, btc.clone())), 30);
    assert_eq!(m.reserved_token(&(1, btc.clone())), 20);
    assert_eq!(m.total_token_of(&1, &btc), 50);
    assert_eq!(m.total_free_token(&btc), 30);
    assert_eq!(m.total_reserved_token(&btc), 20);
    assert_eq!(m.total_token(&btc), 50);

    assert_eq!(m.unreserve(&1, &btc, 21), Err("reserved token too low to unreserve"));
    assert_eq!(m.unreserve(&1, &btc, 5), Ok(()));
    assert_eq!(m.reserved_token(&(1, btc.clone())), 15);
    assert_eq!(m.free_token(&(1, btc.clone())), 35);

    assert_eq!(m.destroy(&1, &pcx_token(), 1), Err("can't destroy chainx token"));
    assert_eq!(m.destroy(&1, &btc, 16), Err("reserved token too low to destroy"));
    assert_eq!(m.destroy(&1, &btc, 15), Ok(()));
    assert_eq!(m.total_token(&btc), 35);
    assert_eq!(m.total_reserved_token(&btc), 0);

    // the native token
    assert_eq!(m.reserve(&1, &pcx_token(), 10001), Err("chainx free token too low to reserve"));
    assert_eq!(m.reserve(&1, &pcx_token(), 400), Ok(()));
    assert_eq!(m.free_token(&(1, pcx_token())), 9600);
    assert_eq!(m.reserved_token(&(1, pcx_token())), 400);
    assert_eq!(m.total_token(&pcx_token()), 20000);
    assert_eq!(m.unreserve(&1, &pcx_token(), 401), Err("chainx reserved token too low to unreserve"));
    assert_eq!(m.unreserve(&1, &pcx_token(), 400), Ok(()));
    assert_eq!(m.ledger().asset_balance(&1, &pcx_token(), AssetType::Free), 10000);
}

#[test]
fn free_tokens_move_and_transfers_cost_a_fee() {
    let mut m = tokens();
    let btc = b"x-btc".to_vec();
    m.issue(&1, &btc, 50).unwrap();
    assert_eq!(m.move_free_token(&1, &2, &btc, 20), Ok(()));
    assert_eq!(m.free_token(&(2, btc.clone())), 20);
    assert_eq!(m.move_free_token(&1, &2, &btc, 31), Err(TokenErr::NotEnough));
    assert_eq!(m.move_free_token(&3, &2, &btc, 1), Err(TokenErr::InvalidToken));
    m.issue(&4, &b"x-eth".to_vec(), u64::MAX - 3).unwrap();
    m.issue(&5, &b"x-eth".to_vec(), 3).unwrap();
    assert_eq!(m.move_free_token(&5, &4, &b"x-eth".to_vec(), 3), Ok(()));
    m.issue(&5, &btc, 1).unwrap();
    m.cancel_token(&b"x-eth".to_vec()).unwrap();
    assert_eq!(m.move_free_token(&4, &5, &b"x-eth".to_vec(), 3), Err(TokenErr::InvalidToken));
    assert_eq!(m.move_free_token(&4, &2, &pcx_token(), 1), Err(TokenErr::NotEnough));

    assert_eq!(m.transfer_token_fee(), 10);
    assert_eq!(m.transfer_token(&1, &2, &btc, 5), Ok(()));
    assert_eq!(m.free_token(&(1, btc.clone())), 25);
    assert_eq!(m.free_token(&(2, btc.clone())), 25);
    assert_eq!(m.free_token(&(1, pcx_token())), 9990);
    assert_eq!(m.free_token(&(999, pcx_token())), 10);
    assert_eq!(m.transfer_token(&1, &2, &pcx_token(), 5), Err("not allow to transfer chainx use transfer_token"));
    assert_eq!(m.transfer_token(&1, &2, &btc, 26), Err("free token too low to send value"));
    assert_eq!(m.set_transfer_token_fee(20000), Ok(()));
    assert_eq!(m.transfer_token(&1, &2, &btc, 5), Err("chainx balance is not enough to pay the fee"));
    assert_eq!(m.free_token(&(1, btc.clone())), 25);
    assert_eq!(m.free_token(&(1, pcx_token())), 9990);
}

#[test]
fn balances_that_would_leave_their_range_are_refused() {
    let mut m = tokens();
    let btc = b"x-btc".to_vec();
    m.issue(&1, &btc, u64::MAX - 2).unwrap();
    m.reserve(&1, &btc, u64::MAX - 2).unwrap();
    m.issue(&2, &btc, 5).unwrap();
    m.issue(&1, &btc, 5).unwrap();
    assert_eq!(m.reserve(&1, &btc, 3), Err("reserved token too high to reserve"));
    assert_eq!(m.reserve(&2, &btc, 3), Err("total reserved token too high to reserve"));
    assert_eq!(m.reserved_token(&(2, btc.clone())), 0);
    assert_eq!(m.free_token(&(2, btc.clone())), 5);

    let mut m = tokens();
    m.issue(&2, &btc, 5).unwrap();
    m.reserve(&2, &btc, 5).unwrap();
    m.issue(&1, &btc, u64::MAX - 2).unwrap();
    assert_eq!(m.unreserve(&2, &btc, 5), Err("total free token too high to unreserve"));
    assert_eq!(m.reserved_token(&(2, btc.clone())), 5);

    let mut m = tokens();
    m.issue(&2, &btc, 5).unwrap();
    m.reserve(&2, &btc, 5).unwrap();
    m.issue(&2, &btc, u64::MAX - 2).unwrap();
    assert_eq!(m.unreserve(&2, &btc, 5), Err("free token too high to unreserve"));
    assert_eq!(m.unreserve(&2, &btc, 2), Ok(()));
    assert_eq!(m.free_token(&(2, btc.clone())), u64::MAX);
    assert_eq!(m.total_token(&btc), u64::MAX as u128 + 3);
}
