use chainx_core::b58;
use chainx_core::bitcoin::{Builder, H160};
use chainx_core::extracter::Extracter;

#[test]
fn base58_decodes_known_strings() {
    assert_eq!(b58::from(&b"2g".to_vec()), Ok(vec![0x61]));
    assert_eq!(b58::from(&b"StV1DL6CwTryKyV".to_vec()), Ok(b"hello world".to_vec()));
    assert_eq!(b58::from(&b"".to_vec()), Ok(vec![]));
    assert_eq!(b58::from(&b"11".to_vec()), Ok(vec![0, 0]));
    assert_eq!(b58::from(&b"1112".to_vec()), Ok(vec![0, 0, 0, 1]));
    assert_eq!(b58::from(&b"z".to_vec()), Ok(vec![57]));
    assert_eq!(b58::from(&b"21".to_vec()), Ok(vec![58]));
}

#[test]
fn base58_decodes_a_bitcoin_address() {
    let decoded = b58::from(&b"mjKE11gjVN4JaC9U8qL6ZB5vuEBgmwik7b".to_vec()).unwrap();
    assert_eq!(decoded.len(), 25);
    assert_eq!(
        decoded,
        vec![
            0x6f, 0x29, 0xa8, 0x9f, 0x59, 0x33, 0x61, 0xb3, 0x99, 0x68, 0x09, 0x4a, 0xb8, 0xc1, 0xfb, 0x06,
            0x83, 0xa6, 0x79, 0x03, 0x01, 0xf1, 0x70, 0x65, 0x92
        ]
    );
}

#[test]
fn base58_refuses_characters_that_are_no_digits() {
    for bad in [b"0".to_vec(), b"O".to_vec(), b"I".to_vec(), b"l".to_vec(), b"ab cd".to_vec(), vec![0x80]] {
        assert_eq!(b58::from(&bad), Err("Invalid base58 digit"));
    }
    assert_eq!(b58::digit_of(b'1'), Some(0));
    assert_eq!(b58::digit_of(b'9'), Some(8));
    assert_eq!(b58::digit_of(b'A'), Some(9));
    assert_eq!(b58::digit_of(b'H'), Some(16));
    assert_eq!(b58::digit_of(b'J'), Some(17));
    assert_eq!(b58::digit_of(b'N'), Some(21));
    assert_eq!(b58::digit_of(b'P'), Some(22));
    assert_eq!(b58::digit_of(b'Z'), Some(32));
    assert_eq!(b58::digit_of(b'a'), Some(33));
    assert_eq!(b58::digit_of(b'k'), Some(43));
    assert_eq!(b58::digit_of(b'm'), Some(44));
    assert_eq!(b58::digit_of(b'z'), Some(57));
}

#[test]
fn extracter_splits_at_the_separator() {
    assert_eq!(Extracter::new(b"abc:def".to_vec()).split(), vec![b"abc".to_vec(), b"def".to_vec()]);
    assert_eq!(Extracter::new(b"abc".to_vec()).split(), vec![b"abc".to_vec()]);
    assert_eq!(Extracter::new(b"".to_vec()).split(), vec![Vec::<u8>::new()]);
    assert_eq!(Extracter::new(b"a:".to_vec()).split(), vec![b"a".to_vec(), Vec::new()]);
    assert_eq!(Extracter::new(b"::".to_vec()).split(), vec![Vec::<u8>::new(), Vec::new(), Vec::new()]);
}

#[test]
fn extracter_reads_account_and_channel() {
    // 0x2c, then the account 77 in eight bytes, least significant first, then zeros and a checksum
    let account = b"5RNz4WJY95S7ZvBCL1TwTc56wJCjKuSc6ixTWzEHgShu7WSY".to_vec();
    assert_eq!(Extracter::new(account.clone()).account_info(), Some((77, Vec::new())));
    let mut with_channel = account.clone();
    with_channel.extend_from_slice(b":hub");
    assert_eq!(Extracter::new(with_channel).account_info(), Some((77, b"hub".to_vec())));
    // a byte that does not part the data belongs to the account, which is then none
    let mut at = account.clone();
    at.extend_from_slice(b"@hub");
    assert_eq!(Extracter::new(at).account_info(), None);
    let mut two = account.clone();
    two.extend_from_slice(b":hub:more");
    assert_eq!(Extracter::new(two).account_info(), Some((77, b"hub".to_vec())));
    let other = b"5PpYqtDG67yVMheYKMz4JhkFZsXSbVvHJoVj8hyL7YeTX5w7".to_vec();
    assert_eq!(Extracter::new(other).account_info(), Some((0x0102030405060708, Vec::new())));
}

#[test]
fn extracter_refuses_what_is_no_account() {
    assert_eq!(Extracter::new(b"mjKE11gjVN4JaC9U8qL6ZB5vuEBgmwik7b".to_vec()).account_info(), None);
    assert_eq!(Extracter::new(b"not base58 !".to_vec()).account_info(), None);
    assert_eq!(Extracter::new(Vec::new()).account_info(), None);
}

#[test]
fn scripts_are_built_around_the_hash() {
    let hash = H160 { w0: 0x0102030405060708, w1: 0x090a0b0c0d0e0f10, w2: 0x11121314 };
    let bytes: Vec<u8> = (1u8..=20).collect();
    assert_eq!(hash.to_bytes(), bytes);
    let mut p2pkh = vec![0x76, 0xa9, 0x14];
    p2pkh.extend_from_slice(&bytes);
    p2pkh.extend_from_slice(&[0x88, 0xac]);
    assert_eq!(Builder::build_p2pkh(&hash), p2pkh);
    let mut p2sh = vec![0xa9, 0x14];
    p2sh.extend_from_slice(&bytes);
    p2sh.push(0x87);
    assert_eq!(Builder::build_p2sh(&hash), p2sh);
}

#[test]
#[allow(non_snake_case)]
fn test_accountId() {
    let script = "chainx:mjKE11gjVN4JaC9U8qL6ZB5vuEBgmwik7b".as_bytes().to_vec();
    let at = script.iter().rposition(|c| *c == b':').unwrap();
    let data = script[at + 1..].to_vec();
    println!("data :{:?}", data);
    let account = b58::from(&data).unwrap();
    println!("account :{:?}", account);
    let id: u64 = parity_codec::Decode::decode(&mut account.as_slice()).unwrap();
    println!("id :{:?}", id);
    assert_eq!(id, 12925668865553738095);
}
