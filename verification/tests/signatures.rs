use chainx_core::bitcoin::{OutPoint, Transaction, TransactionInput, TransactionOutput};
use chainx_core::primitives::H256;
use chainx_core::validator::{
    parse_and_check_signed_tx, public_from_slice, verify_sig, verify_sign, PublicKind, SignatureCheck,
    TrusteeInfo,
};
use std::cell::RefCell;

fn tx(script_sig: Vec<u8>) -> Transaction {
    Transaction {
        hash: H256 { w0: 1, w1: 2, w2: 3, w3: 4 },
        version: 1,
        inputs: vec![TransactionInput {
            previous_output: OutPoint { hash: H256::zero(), index: 0 },
            script_sig,
            sequence: 0,
        }],
        outputs: Vec::new(),
        lock_time: 0,
    }
}

#[test]
fn verify_sig_hands_the_check_to_the_checker() {
    let seen: RefCell<Vec<(Vec<u8>, Vec<u8>, PublicKind, Vec<u8>, u32, u64, u32)>> = RefCell::new(Vec::new());
    let checker = |_t: &Transaction, c: &SignatureCheck| {
        seen.borrow_mut().push((
            c.signature.clone(),
            c.public.clone(),
            c.kind,
            c.script_code.clone(),
            c.input_index,
            c.input_amount,
            c.sighashtype,
        ));
        c.signature == vec![1, 2, 3]
    };
    let t = tx(vec![0, 0]);
    assert!(verify_sig(&vec![1, 2, 3], &vec![2u8; 33], &t, &vec![9, 9], &checker));
    assert!(!verify_sig(&vec![1, 2, 4], &vec![4u8; 65], &t, &vec![9, 9], &checker));
    // bytes that are no public key are not even handed on
    assert!(!verify_sig(&vec![1, 2, 3], &vec![2u8; 32], &t, &vec![9, 9], &checker));
    assert!(!verify_sig(&vec![1, 2, 3], &Vec::new(), &t, &vec![9, 9], &checker));
    let output = TransactionOutput { value: 4200, script_pubkey: vec![7, 7, 7], destinations: Vec::new(), null_data: false };
    assert!(verify_sign(&vec![1, 2, 3], &vec![2u8; 33], &t, &output, &checker));
    assert!(!verify_sign(&vec![1, 2, 3], &vec![2u8; 34], &t, &output, &checker));
    assert_eq!(
        *seen.borrow(),
        vec![
            (vec![1, 2, 3], vec![2u8; 33], PublicKind::Compressed, vec![9, 9], 0, 0, 1),
            (vec![1, 2, 4], vec![4u8; 65], PublicKind::Normal, vec![9, 9], 0, 0, 1),
            (vec![1, 2, 3], vec![2u8; 33], PublicKind::Compressed, vec![7, 7, 7], 0, 4200, 0x41),
        ]
    );
    assert_eq!(public_from_slice(&vec![0u8; 33]), Some(PublicKind::Compressed));
    assert_eq!(public_from_slice(&vec![0u8; 65]), Some(PublicKind::Normal));
    assert_eq!(public_from_slice(&vec![0u8; 64]), None);
}

#[test]
fn signed_transaction_needs_a_key_for_every_signature() {
    let checker = |_t: &Transaction, c: &SignatureCheck| c.signature[0] == c.public[0];
    let info = TrusteeInfo { hot_redeem_script: vec![1], pubkeys: Some(vec![vec![5u8; 33], vec![6u8; 33]]) };
    let t = tx(vec![0, 0]);
    assert_eq!(
        parse_and_check_signed_tx(&t, Some(vec![vec![6], vec![5]]), Some(&info), &checker),
        Ok(vec![vec![6], vec![5]])
    );
    assert_eq!(parse_and_check_signed_tx(&t, Some(vec![]), Some(&info), &checker), Ok(vec![]));
    assert_eq!(
        parse_and_check_signed_tx(&t, Some(vec![vec![6], vec![7]]), Some(&info), &checker),
        Err("Verify sign failed")
    );
    assert_eq!(
        parse_and_check_signed_tx(&tx(vec![0]), Some(vec![vec![6]]), Some(&info), &checker),
        Err("Invalid signature, script_sig is too short")
    );
    let mut no_inputs = tx(vec![0, 0]);
    no_inputs.inputs.clear();
    assert_eq!(
        parse_and_check_signed_tx(&no_inputs, Some(vec![vec![6]]), Some(&info), &checker),
        Err("Invalid signature, script_sig is too short")
    );
    assert_eq!(parse_and_check_signed_tx(&t, None, Some(&info), &checker), Err("Invalid signature"));
    assert_eq!(
        parse_and_check_signed_tx(&t, Some(vec![vec![6]]), None, &checker),
        Err("Should set trustee address info first.")
    );
    let unparsed = TrusteeInfo { hot_redeem_script: vec![1], pubkeys: None };
    assert_eq!(
        parse_and_check_signed_tx(&t, Some(vec![vec![6]]), Some(&unparsed), &checker),
        Err("Parse redeem script failed")
    );
}
