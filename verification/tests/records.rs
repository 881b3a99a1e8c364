use chainx_core::assetdef::{Asset, Chain as AssetChain};
use chainx_core::bitcoin::{
    Address, BlockHeader, Network, OutPoint, ParsedPartialMerkleTree, ScriptAddress, Transaction,
    TransactionInput, TransactionOutput, Type, H160,
};
use chainx_core::blockchain::{Chain, Params};
use chainx_core::bridge::{btc_token, Application, Module};
use chainx_core::mock::new_test_ext;
use chainx_core::primitives::H256;
use chainx_core::proposal::{handle_proposal, Proposal};
use chainx_core::records::{HeightOrTime, TxState};
use chainx_core::tx::RelayTx;
use chainx_core::validator::{SignatureCheck, TrusteeInfo};

fn h(n: u64) -> H256 {
    H256 { w0: n, w1: 0, w2: 0, w3: 0 }
}

fn address(n: u64) -> Address {
    Address { kind: Type::P2PKH, network: Network::Mainnet, hash: H160 { w0: n, w1: 0, w2: 0 } }
}

fn header(hash: u64, prev: u64) -> BlockHeader {
    BlockHeader {
        hash: h(hash),
        version: 1,
        previous_header_hash: h(prev),
        merkle_root_hash: h(1000 + hash),
        time: 1_500_000_000 + hash as u32,
        bits: 0,
        nonce: 0,
    }
}

fn pay(to: u64, value: u64) -> TransactionOutput {
    TransactionOutput {
        value,
        script_pubkey: vec![to as u8],
        destinations: vec![ScriptAddress { kind: Type::P2PKH, hash: H160 { w0: to, w1: 0, w2: 0 } }],
        null_data: false,
    }
}

fn data(text: &[u8]) -> TransactionOutput {
    let mut script = vec![0x6a, text.len() as u8];
    script.extend_from_slice(text);
    TransactionOutput { value: 0, script_pubkey: script, destinations: Vec::new(), null_data: true }
}

fn tx(hash: u64, prev: u64, outputs: Vec<TransactionOutput>) -> Transaction {
    Transaction {
        hash: h(hash),
        version: 1,
        inputs: vec![TransactionInput {
            previous_output: OutPoint { hash: h(prev), index: 0 },
            script_sig: Vec::new(),
            sequence: 0xffff_ffff,
        }],
        outputs,
        lock_time: 0,
    }
}

fn relay(block: u64, raw: Transaction, from: u64) -> RelayTx {
    let previous_raw = tx(raw.inputs[0].previous_output.hash.w0, 1, vec![pay(from, 1_000_000)]);
    let proof = ParsedPartialMerkleTree { root: h(1000 + block), hashes: vec![raw.hash] };
    RelayTx { block_hash: h(block), raw, merkle_proof: Some(proof), previous_raw }
}

const ACCOUNT_77: &[u8] = b"5RNz4WJY95S7ZvBCL1TwTc56wJCjKuSc6ixTWzEHgShu7WSY";

fn bridge(confirmations: u32) -> Module {
    let mut ledger = new_test_ext();
    let asset = Asset::new(btc_token(), b"Bitcoin".to_vec(), AssetChain::Bitcoin, 8, Vec::new()).unwrap();
    ledger.register_asset(asset, true, false).unwrap();
    let chain = Chain::new(header(1, 0), 0, Params { max_fork_route_preset: 10, confirmations, reserved_block: 1000 });
    let mut m = Module::new(chain, ledger, Network::Mainnet);
    m.set_trustee_address(address(900));
    m
}

#[test]
fn deposits_are_shown_with_the_blocks_built_on_them() {
    let mut m = bridge(4);
    m.push_header(header(2, 1)).unwrap();
    m.push_header(header(3, 2)).unwrap();
    m.push_header(header(4, 3)).unwrap();
    m.push_transaction(relay(2, tx(50, 40, vec![data(ACCOUNT_77), pay(900, 700)]), 500)).unwrap();
    m.push_transaction(relay(3, tx(51, 41, vec![pay(900, 11), pay(900, 22)]), 501)).unwrap();
    m.push_transaction(relay(3, tx(52, 42, vec![data(ACCOUNT_77)]), 502)).unwrap();
    m.push_transaction(relay(4, tx(53, 43, vec![pay(900, 5)]), 503)).unwrap();
    let list = m.deposit_list();
    // the best block and the two behind it, which is one block less than the confirmation depth
    assert_eq!(list.len(), 3);
    assert_eq!(list[0].txid, Some(h(53)));
    assert_eq!(list[0].state, TxState::Confirming(1, 4));
    assert_eq!(list[0].balance, 5);
    assert_eq!(list[0].who, 0);
    assert_eq!(list[0].addr, Some(address(503)));
    assert_eq!(list[0].height_or_time, HeightOrTime::Timestamp(1_500_000_004));
    assert_eq!(list[0].token, btc_token());
    assert_eq!(list[0].withdrawal_id, 0);
    assert!(list[0].ext.is_empty());
    assert_eq!(list[1].txid, Some(h(51)));
    assert_eq!(list[1].state, TxState::Confirming(2, 4));
    assert_eq!(list[1].balance, 33);
    assert_eq!(list[2].txid, Some(h(50)));
    assert_eq!(list[2].state, TxState::Confirming(3, 4));
    assert_eq!(list[2].who, 77);
    assert_eq!(list[2].ext, data(ACCOUNT_77).script_pubkey);

    // a chain that is shorter than the depth shows nothing
    let mut short = bridge(4);
    short.push_header(header(2, 1)).unwrap();
    short.push_transaction(relay(2, tx(50, 40, vec![pay(900, 700)]), 500)).unwrap();
    assert!(short.deposit_list().is_empty());
    assert!(bridge(1).deposit_list().is_empty());
}

#[test]
fn withdrawals_are_shown_in_the_state_of_the_proposal() {
    let mut m = bridge(1);
    m.push_header(header(2, 1)).unwrap();
    m.push_transaction(relay(2, tx(50, 40, vec![data(ACCOUNT_77), pay(900, 9000)]), 500)).unwrap();
    m.push_header(header(3, 2)).unwrap();
    for (id, balance) in [(4u32, 1000u64), (2, 2000), (9, 3000)] {
        let a = Application { id, applicant: 77, balance, destination: Some(address(600 + id as u64)), ext: vec![id as u8], height: 30 };
        assert_eq!(m.apply_withdrawal(a), Ok(()));
    }
    assert_eq!(m.withdrawal_applications().len(), 3);
    let list = m.withdrawal_list();
    assert_eq!(list.iter().map(|r| r.withdrawal_id).collect::<Vec<_>>(), vec![4, 2, 9]);
    assert!(list.iter().all(|r| r.state == TxState::Applying && r.txid.is_none()));
    assert_eq!(list[1].balance, 2000);
    assert_eq!(list[1].who, 77);
    assert_eq!(list[1].addr, Some(address(602)));
    assert_eq!(list[1].ext, vec![2u8]);
    assert_eq!(list[1].height_or_time, HeightOrTime::Height(30));
    assert_eq!(list[1].token, btc_token());

    Proposal::create_proposal(&mut m, vec![9, 4], 10).unwrap();
    let list = m.withdrawal_list();
    assert_eq!(
        list.iter().map(|r| r.state).collect::<Vec<_>>(),
        vec![TxState::Signing, TxState::Applying, TxState::Signing]
    );
    let info = TrusteeInfo { hot_redeem_script: vec![1, 2], pubkeys: Some(vec![vec![2u8; 33]]) };
    let checker = |_t: &Transaction, _c: &SignatureCheck| true;
    let mut signed = m.withdrawal_proposal().unwrap().tx;
    signed.hash = h(70);
    signed.inputs[0].script_sig = vec![1, 1];
    handle_proposal(&mut m, signed.duplicate(), Some(vec![vec![1]]), Some(&info), 1, &checker).unwrap();
    let list = m.withdrawal_list();
    assert_eq!(
        list.iter().map(|r| r.state).collect::<Vec<_>>(),
        vec![TxState::Processing, TxState::Applying, TxState::Processing]
    );
    assert!(list.iter().all(|r| r.txid.is_none()));
}

#[test]
fn relayed_withdrawal_is_found_in_the_blocks_that_are_not_confirmed() {
    let mut m = bridge(3);
    m.push_header(header(2, 1)).unwrap();
    m.push_transaction(relay(2, tx(50, 40, vec![data(ACCOUNT_77), pay(900, 9000)]), 500)).unwrap();
    m.push_header(header(3, 2)).unwrap();
    m.push_header(header(4, 3)).unwrap();
    m.push_header(header(5, 4)).unwrap();
    assert_eq!(m.assets().free_balance(&77, &btc_token()), 9000);
    let a = Application { id: 1, applicant: 77, balance: 1000, destination: Some(address(601)), ext: Vec::new(), height: 30 };
    m.apply_withdrawal(a).unwrap();
    Proposal::create_proposal(&mut m, vec![1], 10).unwrap();
    let mut signed = m.withdrawal_proposal().unwrap().tx;
    signed.hash = h(70);
    let spent = signed.inputs[0].previous_output.hash.w0;
    let previous_raw = tx(spent, 1, vec![pay(1, 1), pay(900, 9000)]);
    let proof = ParsedPartialMerkleTree { root: h(1005), hashes: vec![h(70)] };
    m.push_transaction(RelayTx { block_hash: h(5), raw: signed, merkle_proof: Some(proof), previous_raw }).unwrap();
    let list = m.withdrawal_list();
    assert_eq!(list.len(), 1);
    assert_eq!(list[0].txid, Some(h(70)));
    assert_eq!(list[0].state, TxState::Signing);
    // once two more blocks are built the block lies too deep to be looked at
    m.push_header(header(6, 5)).unwrap();
    assert_eq!(m.withdrawal_list()[0].txid, Some(h(70)));
    m.push_header(header(7, 6)).unwrap();
    assert_eq!(m.withdrawal_list()[0].txid, None);
}
