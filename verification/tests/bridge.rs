use chainx_core::assetdef::{Asset, Chain as AssetChain};
use chainx_core::assets::AssetType;
use chainx_core::bitcoin::{
    Address, BlockHeader, Network, OutPoint, ParsedPartialMerkleTree, ScriptAddress, Transaction,
    TransactionInput, TransactionOutput, Type, H160,
};
use chainx_core::blockchain::{BlockOrigin, Chain, ChainErr, Params};
use chainx_core::bridge::{
    btc_token, handle_input, handle_output, Application, Event, Module, TxHandler, VoteResult,
};
use chainx_core::mock::new_test_ext;
use chainx_core::primitives::H256;
use chainx_core::proposal::{handle_proposal, Proposal};
use chainx_core::tx::{
    detect_transaction_type, ensure_identical, parse_deposit_outputs, DepositCache, RelayTx, TxType,
};
use chainx_core::utxo::UTXO;
use chainx_core::validator::{SignatureCheck, TrusteeInfo};

fn h(n: u64) -> H256 {
    H256 { w0: n, w1: 0, w2: 0, w3: 0 }
}

fn hash160(n: u64) -> H160 {
    H160 { w0: n, w1: 0, w2: 0 }
}

fn address(n: u64) -> Address {
    Address { kind: Type::P2PKH, network: Network::Testnet, hash: hash160(n) }
}

const TRUSTEE: u64 = 900;
const SENDER: u64 = 500;

fn header(hash: u64, prev: u64) -> BlockHeader {
    BlockHeader {
        hash: h(hash),
        version: 1,
        previous_header_hash: h(prev),
        merkle_root_hash: h(1000 + hash),
        time: 1_550_000_000,
        bits: 0,
        nonce: 0,
    }
}

fn pay(to: u64, value: u64) -> TransactionOutput {
    TransactionOutput {
        value,
        script_pubkey: vec![0x76, 0xa9, 0x14, to as u8],
        destinations: vec![ScriptAddress { kind: Type::P2PKH, hash: hash160(to) }],
        null_data: false,
    }
}

fn data(text: &[u8]) -> TransactionOutput {
    let mut script = vec![0x6a, text.len() as u8];
    script.extend_from_slice(text);
    TransactionOutput { value: 0, script_pubkey: script, destinations: Vec::new(), null_data: true }
}

fn input(prev: u64, index: u32) -> TransactionInput {
    TransactionInput { previous_output: OutPoint { hash: h(prev), index }, script_sig: Vec::new(), sequence: 0xffff_ffff }
}

fn tx(hash: u64, inputs: Vec<TransactionInput>, outputs: Vec<TransactionOutput>) -> Transaction {
    Transaction { hash: h(hash), version: 1, inputs, outputs, lock_time: 0 }
}

/// A transaction of the sender that the relayed one spends from.
fn senders_tx(hash: u64) -> Transaction {
    tx(hash, vec![input(1, 0)], vec![pay(SENDER, 9_000_000)])
}

fn relay(block: u64, raw: Transaction, previous_raw: Transaction) -> RelayTx {
    let proof = ParsedPartialMerkleTree { root: h(1000 + block), hashes: vec![h(3), raw.hash, h(4)] };
    RelayTx { block_hash: h(block), raw, merkle_proof: Some(proof), previous_raw }
}

fn bridge(confirmations: u32) -> Module {
    let mut ledger = new_test_ext();
    let asset = Asset::new(btc_token(), b"Bitcoin".to_vec(), AssetChain::Bitcoin, 8, Vec::new()).unwrap();
    ledger.register_asset(asset, true, false).unwrap();
    let chain = Chain::new(
        header(1, 0),
        0,
        Params { max_fork_route_preset: 10, confirmations, reserved_block: 1000 },
    );
    let mut m = Module::new(chain, ledger, Network::Testnet);
    m.set_trustee_address(address(TRUSTEE));
    m
}

const ACCOUNT_77: &[u8] = b"5RNz4WJY95S7ZvBCL1TwTc56wJCjKuSc6ixTWzEHgShu7WSY";

#[test]
fn deposit_without_account_waits_until_the_address_is_bound() {
    let mut m = bridge(1);
    let btc = btc_token();
    m.push_header(header(2, 1)).unwrap();
    let deposit = tx(50, vec![input(40, 0)], vec![pay(TRUSTEE, 5_000_000), pay(SENDER, 1)]);
    assert_eq!(m.push_transaction(relay(2, deposit, senders_tx(40))), Ok(()));
    assert_eq!(m.tx_for(&h(50)).unwrap().tx_type, TxType::Deposit);
    assert_eq!(m.tx_for(&h(50)).unwrap().input_address, address(SENDER));
    // not confirmed yet: nothing happened
    assert_eq!(m.pending_deposit(&address(SENDER)), None);
    assert_eq!(m.utxos().max_index(), 0);
    // the next header confirms the block
    m.push_header(header(3, 2)).unwrap();
    assert_eq!(
        m.pending_deposit(&address(SENDER)),
        Some(vec![DepositCache { txid: h(50), balance: 5_000_000 }])
    );
    assert_eq!(m.assets().asset_balance(&77, &btc, AssetType::Free), 0);
    assert_eq!(m.assets().total_asset_balance(&btc, AssetType::Free), 0);
    assert_eq!(
        m.utxos().get(0),
        Some(UTXO { txid: h(50), index: 0, balance: 5_000_000, is_spent: false })
    );
    assert_eq!(m.utxos().max_index(), 1);

    // the sender names the account
    let bind = tx(51, vec![input(41, 0)], vec![data(ACCOUNT_77)]);
    assert_eq!(m.push_transaction(relay(3, bind, senders_tx(41))), Ok(()));
    assert_eq!(m.tx_for(&h(51)).unwrap().tx_type, TxType::TrusteeBind);
    assert_eq!(m.address_map(&address(SENDER)), None);
    m.push_header(header(4, 3)).unwrap();
    assert_eq!(m.address_map(&address(SENDER)), Some(77));
    assert_eq!(m.pending_deposit(&address(SENDER)), None);
    assert_eq!(m.assets().asset_balance(&77, &btc, AssetType::Free), 5_000_000);
    assert_eq!(m.assets().total_asset_balance(&btc, AssetType::Free), 5_000_000);

    // a later deposit from the bound address is credited at once
    let more = tx(52, vec![input(42, 0)], vec![pay(TRUSTEE, 300)]);
    assert_eq!(m.push_transaction(relay(4, more, senders_tx(42))), Ok(()));
    m.push_header(header(5, 4)).unwrap();
    assert_eq!(m.assets().asset_balance(&77, &btc, AssetType::Free), 5_000_300);
    assert_eq!(m.pending_deposit(&address(SENDER)), None);
}

#[test]
fn deposit_that_names_its_account_is_credited_and_binds() {
    let mut m = bridge(1);
    let btc = btc_token();
    m.push_header(header(2, 1)).unwrap();
    let mut text = ACCOUNT_77.to_vec();
    text.extend_from_slice(b":hub");
    let deposit = tx(50, vec![input(40, 0)], vec![data(&text), pay(TRUSTEE, 1200), pay(TRUSTEE, 34)]);
    let parsed = parse_deposit_outputs(&deposit, Some(&address(TRUSTEE))).unwrap();
    assert_eq!(parsed.account_info, Some((77, b"hub".to_vec())));
    assert_eq!(parsed.deposit_balance, 1234);
    assert_eq!(parsed.original, data(&text).script_pubkey);
    assert_eq!(
        parse_deposit_outputs(&deposit, None).err(),
        Some("Should set trustee address info first.")
    );
    assert_eq!(m.push_transaction(relay(2, deposit, senders_tx(40))), Ok(()));
    m.push_header(header(3, 2)).unwrap();
    assert_eq!(m.assets().asset_balance(&77, &btc, AssetType::Free), 1234);
    assert_eq!(m.address_map(&address(SENDER)), Some(77));
    assert_eq!(m.utxos().max_index(), 2);
}

#[test]
fn transaction_is_applied_exactly_once() {
    let mut m = bridge(1);
    let btc = btc_token();
    m.push_header(header(2, 1)).unwrap();
    m.push_header(header(12, 1)).unwrap();
    let mut text = ACCOUNT_77.to_vec();
    text.extend_from_slice(b":hub");
    let deposit = || tx(50, vec![input(40, 0)], vec![data(&text), pay(TRUSTEE, 1000)]);
    // the same transaction is relayed for two rival blocks
    assert_eq!(m.push_transaction(relay(2, deposit(), senders_tx(40))), Ok(()));
    assert_eq!(m.push_transaction(relay(12, deposit(), senders_tx(40))), Ok(()));
    assert_eq!(m.chain().block_header_for(&h(2)).unwrap().txid_list, vec![h(50)]);
    assert_eq!(m.chain().block_header_for(&h(12)).unwrap().txid_list, vec![h(50)]);
    m.push_header(header(3, 2)).unwrap();
    assert_eq!(m.assets().asset_balance(&77, &btc, AssetType::Free), 1000);
    // applying it again, by hand or through the rival block, changes nothing
    assert_eq!(m.handle_tx(&h(50)), Ok(()));
    m.handle_confirm_block(&h(12));
    let info = m.chain().block_header_for(&h(12)).unwrap().duplicate();
    assert_eq!(Chain::update_header(&mut m, &info), Ok(()));
    assert_eq!(m.assets().asset_balance(&77, &btc, AssetType::Free), 1000);
    assert_eq!(m.assets().total_asset_balance(&btc, AssetType::Free), 1000);
    assert_eq!(m.utxos().max_index(), 1);
    assert_eq!(m.handle_tx(&h(99)), Err("not find this txinfo for this txid"));
    assert!(TxHandler::new(&m, &h(99)).is_err());
    assert_eq!(TxHandler::new(&m, &h(50)).unwrap().tx_hash, h(50));
}

#[test]
fn relay_is_checked_against_the_header() {
    let mut m = bridge(6);
    m.push_header(header(2, 1)).unwrap();
    let deposit = || tx(50, vec![input(40, 0)], vec![pay(TRUSTEE, 10)]);

    let mut r = relay(9, deposit(), senders_tx(40));
    assert_eq!(m.push_transaction(r), Err("tx's block header must exist before"));
    r = relay(2, deposit(), senders_tx(40));
    r.merkle_proof = None;
    assert_eq!(m.push_transaction(r), Err("Parse partial merkle tree failed"));
    r = relay(2, deposit(), senders_tx(40));
    r.merkle_proof = Some(ParsedPartialMerkleTree { root: h(5), hashes: vec![h(50)] });
    assert_eq!(m.push_transaction(r), Err("Check failed for merkle tree proof"));
    r = relay(2, deposit(), senders_tx(40));
    r.merkle_proof = Some(ParsedPartialMerkleTree { root: h(1002), hashes: vec![h(3), h(4)] });
    assert_eq!(m.push_transaction(r), Err("Tx hash should in ParsedPartialMerkleTree"));
    r = relay(2, deposit(), senders_tx(41));
    assert_eq!(m.push_transaction(r), Err("Previous tx id not equal input point hash"));
    r = relay(2, tx(50, vec![], vec![pay(TRUSTEE, 10)]), senders_tx(40));
    assert_eq!(m.push_transaction(r), Err("Previous tx id not equal input point hash"));
    r = relay(2, tx(50, vec![input(40, 0)], vec![pay(SENDER, 10)]), senders_tx(40));
    assert_eq!(m.push_transaction(r), Err("not found our pubkey, may be an unrelated tx"));
    r = relay(2, tx(50, vec![input(40, 7)], vec![pay(TRUSTEE, 10)]), senders_tx(40));
    assert_eq!(m.push_transaction(r), Err("Inspect address failed in this transaction"));
    assert!(m.tx_for(&h(50)).is_none());
    assert!(m.chain().block_header_for(&h(2)).unwrap().txid_list.is_empty());

    assert_eq!(m.push_transaction(relay(2, deposit(), senders_tx(40))), Ok(()));
    // relaying it again is accepted and changes nothing
    assert_eq!(m.push_transaction(relay(2, deposit(), senders_tx(40))), Ok(()));
    assert_eq!(m.chain().block_header_for(&h(2)).unwrap().txid_list, vec![h(50)]);

    let chain_only = chainx_core::validator::validate_transaction(m.chain(), &relay(2, deposit(), senders_tx(40)));
    assert_eq!(chain_only, Ok(()));
    let typed = chainx_core::tx::validate_transaction(m.chain(), &relay(2, deposit(), senders_tx(40)), &address(TRUSTEE));
    assert_eq!(typed, Ok(TxType::Deposit));
}

#[test]
fn transactions_are_told_apart_in_order() {
    let trustee = address(TRUSTEE);
    let from_trustee = tx(40, vec![input(1, 0)], vec![pay(SENDER, 1), pay(TRUSTEE, 2)]);
    let spend = tx(50, vec![input(39, 0), input(40, 1)], vec![pay(TRUSTEE, 10), data(b"x")]);
    assert_eq!(detect_transaction_type(&spend, &from_trustee, &trustee), TxType::Withdrawal);
    let deposit = tx(50, vec![input(40, 0)], vec![data(b"x"), pay(TRUSTEE, 10)]);
    assert_eq!(detect_transaction_type(&deposit, &from_trustee, &trustee), TxType::Deposit);
    let bind = tx(50, vec![input(40, 0)], vec![data(b"x")]);
    assert_eq!(detect_transaction_type(&bind, &from_trustee, &trustee), TxType::TrusteeBind);
    let other = tx(50, vec![input(40, 0)], vec![pay(SENDER, 10)]);
    assert_eq!(detect_transaction_type(&other, &from_trustee, &trustee), TxType::Unknown);
}

fn funded_bridge() -> Module {
    let mut m = bridge(1);
    m.push_header(header(2, 1)).unwrap();
    let mut text = ACCOUNT_77.to_vec();
    text.extend_from_slice(b":hub");
    for (txid, value) in [(50u64, 1000u64), (51, 2000), (52, 4000)] {
        let deposit = tx(txid, vec![input(txid - 10, 0)], vec![data(&text), pay(TRUSTEE, value)]);
        assert_eq!(m.push_transaction(relay(2, deposit, senders_tx(txid - 10))), Ok(()));
    }
    m.push_header(header(3, 2)).unwrap();
    assert_eq!(m.assets().asset_balance(&77, &btc_token(), AssetType::Free), 7000);
    assert_eq!(m.utxos().max_index(), 3);
    m
}

fn application(id: u32, balance: u64, to: Option<u64>) -> Application {
    Application {
        id,
        applicant: 77,
        balance,
        destination: to.map(|n| Address { kind: Type::P2SH, network: Network::Testnet, hash: hash160(n) }),
        ext: Vec::new(),
        height: 3,
    }
}

#[test]
fn proposal_pays_applications_from_the_newest_outputs() {
    let mut m = funded_bridge();
    let btc = btc_token();
    assert_eq!(m.apply_withdrawal(application(1, 3000, Some(600))), Ok(()));
    assert_eq!(m.apply_withdrawal(application(2, 50, Some(601))), Ok(()));
    assert_eq!(m.apply_withdrawal(application(3, 1500, Some(602))), Ok(()));
    assert_eq!(m.assets().asset_balance(&77, &btc, AssetType::Free), 2450);
    assert_eq!(m.assets().asset_balance(&77, &btc, AssetType::ReservedWithdrawal), 4550);

    assert_eq!(Proposal::create_proposal(&mut m, vec![1, 9], 100), Err("not get record for this key"));
    assert!(m.withdrawal_proposal().is_none());
    assert_eq!(Proposal::create_proposal(&mut m, vec![1, 2, 3], 100), Ok(()));
    let p = m.withdrawal_proposal().unwrap();
    assert_eq!(p.sig_state, VoteResult::Unfinish);
    assert_eq!(p.withdrawal_id_list, vec![1, 2, 3]);
    // 4550 are asked for: the outputs of 4000 and 2000 are spent, the newest first
    assert_eq!(p.tx.inputs.len(), 2);
    assert_eq!(p.tx.inputs[0].previous_output, OutPoint { hash: h(52), index: 1 });
    assert_eq!(p.tx.inputs[1].previous_output, OutPoint { hash: h(51), index: 1 });
    assert_eq!(p.tx.inputs[0].sequence, 0xffff_ffff);
    // the application of 50 does not cover the fee and is left out; 6000 - 4550 - 100 go back
    let values: Vec<u64> = p.tx.outputs.iter().map(|o| o.value).collect();
    assert_eq!(values, vec![2900, 1400, 1350]);
    assert_eq!(p.tx.outputs[0].destinations, vec![ScriptAddress { kind: Type::P2SH, hash: hash160(600) }]);
    assert_eq!(p.tx.outputs[0].script_pubkey.len(), 23);
    assert_eq!(p.tx.outputs[2].destinations, vec![ScriptAddress { kind: Type::P2PKH, hash: hash160(TRUSTEE) }]);
    assert_eq!(p.tx.outputs[2].script_pubkey.len(), 25);
    assert_eq!(p.tx.version, 1);
    assert_eq!(p.tx.lock_time, 0);

    // while the proposal is open no other can be made
    assert_eq!(
        Proposal::create_proposal(&mut m, vec![1], 100),
        Err("there is an unfinished withdrawal proposal")
    );
    let still = m.withdrawal_proposal().unwrap();
    assert_eq!(still.withdrawal_id_list, vec![1, 2, 3]);
    assert_eq!(ensure_identical(&still.tx, &p.tx), Ok(()));
}

#[test]
fn proposal_needs_funds_and_addresses() {
    let mut m = funded_bridge();
    assert_eq!(m.apply_withdrawal(application(1, 7000, Some(600))), Ok(()));
    assert_eq!(m.apply_withdrawal(application(2, 1, Some(600))).is_err(), true);
    assert_eq!(Proposal::create_proposal(&mut m, vec![1], 10), Ok(()));
    let p = m.withdrawal_proposal().unwrap();
    assert_eq!(p.tx.inputs.len(), 3);
    assert_eq!(p.tx.outputs.len(), 1);
    assert_eq!(p.tx.outputs[0].value, 6990);

    let mut poor = bridge(1);
    poor.push_header(header(2, 1)).unwrap();
    let mut text = ACCOUNT_77.to_vec();
    text.extend_from_slice(b":hub");
    let deposit = tx(50, vec![input(40, 0)], vec![data(&text), pay(TRUSTEE, 1000)]);
    poor.push_transaction(relay(2, deposit, senders_tx(40))).unwrap();
    poor.push_header(header(3, 2)).unwrap();
    assert_eq!(poor.apply_withdrawal(application(1, 600, None)), Ok(()));
    assert_eq!(poor.apply_withdrawal(application(2, 400, Some(600))), Ok(()));
    assert_eq!(Proposal::create_proposal(&mut poor, vec![1], 10), Err("parse addr error"));
    assert_eq!(Proposal::create_proposal(&mut poor, vec![2], 10), Ok(()));
    let mut spent = funded_bridge();
    spent.apply_withdrawal(application(1, 7000, Some(600))).unwrap();
    let mut utxos_gone = bridge(1);
    utxos_gone.push_header(header(2, 1)).unwrap();
    assert_eq!(Proposal::create_proposal(&mut utxos_gone, vec![], 10), Err("lack of balance"));
    assert_eq!(Proposal::create_proposal(&mut spent, vec![1, 1], 10), Err("lack of balance"));
}

fn signed_like(p: &Transaction, hash: u64) -> Transaction {
    let mut t = p.duplicate();
    t.hash = h(hash);
    for i in t.inputs.iter_mut() {
        i.script_sig = vec![0, 1, 2, 3];
    }
    t
}

fn trustees_tx(hash: u64) -> Transaction {
    tx(hash, vec![input(1, 0)], vec![pay(SENDER, 1), pay(TRUSTEE, 4000)])
}

#[test]
fn confirmed_withdrawal_finishes_the_proposal() {
    let mut m = funded_bridge();
    let btc = btc_token();
    m.apply_withdrawal(application(1, 3000, Some(600))).unwrap();
    m.apply_withdrawal(application(2, 1500, Some(602))).unwrap();
    Proposal::create_proposal(&mut m, vec![1, 2], 100).unwrap();
    let p = m.withdrawal_proposal().unwrap();
    let withdrawal = signed_like(&p.tx, 70);
    assert_eq!(m.push_transaction(relay(3, withdrawal, trustees_tx(52))), Ok(()));
    assert_eq!(m.tx_for(&h(70)).unwrap().tx_type, TxType::Withdrawal);
    m.push_header(header(4, 3)).unwrap();
    assert!(m.withdrawal_proposal().is_none());
    assert!(!m.is_withdrawal_disabled());
    assert_eq!(m.assets().asset_balance(&77, &btc, AssetType::ReservedWithdrawal), 0);
    assert_eq!(m.assets().asset_balance(&77, &btc, AssetType::Free), 2500);
    assert_eq!(m.assets().total_asset_balance(&btc, AssetType::ReservedWithdrawal), 0);
    assert_eq!(m.assets().total_asset_balance(&btc, AssetType::Free), 2500);
    // the spent outputs are marked, the change is a new output
    assert_eq!(m.utxos().get(0).unwrap().is_spent, false);
    assert_eq!(m.utxos().get(1).unwrap().is_spent, true);
    assert_eq!(m.utxos().get(2).unwrap().is_spent, true);
    assert_eq!(m.utxos().get(3), Some(UTXO { txid: h(70), index: 2, balance: 1400, is_spent: false }));
    // the applications are gone: a new proposal for them cannot be made
    assert_eq!(Proposal::create_proposal(&mut m, vec![1], 100), Err("not get record for this key"));

    // undoing the block gives back what was spent and takes the change away
    assert_eq!(m.rollback_tx(&h(3)), Ok(()));
    assert_eq!(m.utxos().get(1).unwrap().is_spent, false);
    assert_eq!(m.utxos().get(2).unwrap().is_spent, false);
    assert_eq!(m.utxos().get(3).unwrap().is_spent, true);
    assert_eq!(m.assets().asset_balance(&77, &btc, AssetType::Free), 2500);
}

#[test]
fn withdrawal_that_is_not_the_proposed_one_marks_a_fault() {
    let mut m = funded_bridge();
    m.apply_withdrawal(application(1, 3000, Some(600))).unwrap();
    Proposal::create_proposal(&mut m, vec![1], 100).unwrap();
    let p = m.withdrawal_proposal().unwrap();
    let mut other = signed_like(&p.tx, 70);
    other.outputs[0].value += 1;
    assert_eq!(m.push_transaction(relay(3, other, trustees_tx(52))), Ok(()));
    m.push_header(header(4, 3)).unwrap();
    assert!(m.is_withdrawal_disabled());
    assert!(m.withdrawal_proposal().is_some());
    assert_eq!(m.assets().asset_balance(&77, &btc_token(), AssetType::ReservedWithdrawal), 3000);
    assert_eq!(
        m.handle_tx(&h(70)),
        Err("The transaction text does not match the original text to be signed.")
    );
    assert_eq!(Proposal::create_proposal(&mut m, vec![1], 100), Err("withdrawal is disabled"));
    m.enable_withdrawal();
    assert!(!m.is_withdrawal_disabled());

    // a withdrawal that nothing was proposed for marks a fault as well
    let mut n = funded_bridge();
    let stray = tx(71, vec![input(52, 1)], vec![pay(SENDER, 5)]);
    assert_eq!(n.push_transaction(relay(3, stray, trustees_tx(52))), Ok(()));
    n.push_header(header(4, 3)).unwrap();
    assert!(n.is_withdrawal_disabled());
}

#[test]
fn deep_fork_marks_a_fault() {
    let mut m = bridge(1);
    m.push_header(header(2, 1)).unwrap();
    m.push_header(header(3, 2)).unwrap();
    m.push_header(header(12, 1)).unwrap();
    m.push_header(header(13, 12)).unwrap();
    assert!(!m.is_withdrawal_disabled());
    assert_eq!(m.push_header(header(14, 13)).unwrap_err(), ChainErr::AncientFork);
    assert!(m.is_withdrawal_disabled());
    assert_eq!(m.push_header(header(99, 98)).unwrap_err(), ChainErr::UnknownParent);
    assert!(matches!(m.push_header(header(3, 2)).unwrap(), BlockOrigin::KnownBlock));
}

#[test]
fn signed_proposal_is_taken_when_every_signature_verifies() {
    let mut m = funded_bridge();
    m.apply_withdrawal(application(1, 3000, Some(600))).unwrap();
    Proposal::create_proposal(&mut m, vec![1], 100).unwrap();
    let p = m.withdrawal_proposal().unwrap();
    let info = TrusteeInfo {
        hot_redeem_script: vec![0x52, 0x21],
        pubkeys: Some(vec![vec![2u8; 33], vec![3u8; 33], vec![4u8; 65]]),
    };
    // a signature verifies by the key whose first byte it starts with
    let checker = |_tx: &Transaction, c: &SignatureCheck| {
        c.signature[0] == c.public[0] && c.input_index == 0 && c.sighashtype == 1 && c.script_code == vec![0x52, 0x21]
    };
    let signed = signed_like(&p.tx, 70);
    assert_eq!(
        handle_proposal(&mut m, signed.duplicate(), Some(vec![vec![3, 9]]), Some(&info), 2, &checker),
        Ok(())
    );
    assert_eq!(m.withdrawal_proposal().unwrap().sig_state, VoteResult::Unfinish);
    assert_eq!(m.withdrawal_proposal().unwrap().tx.hash, h(70));
    assert_eq!(
        handle_proposal(&mut m, signed.duplicate(), Some(vec![vec![3, 9], vec![4, 1]]), Some(&info), 2, &checker),
        Ok(())
    );
    assert_eq!(m.withdrawal_proposal().unwrap().sig_state, VoteResult::Finish);
    assert_eq!(
        handle_proposal(&mut m, signed.duplicate(), Some(vec![vec![3, 9], vec![7, 1]]), Some(&info), 2, &checker),
        Err("Verify sign failed")
    );
    assert_eq!(
        handle_proposal(&mut m, signed.duplicate(), None, Some(&info), 2, &checker),
        Err("Invalid signature")
    );
    assert_eq!(
        handle_proposal(&mut m, signed.duplicate(), Some(vec![]), None, 2, &checker),
        Err("Should set trustee address info first.")
    );
    let mut other = signed.duplicate();
    other.lock_time = 5;
    assert_eq!(
        handle_proposal(&mut m, other, Some(vec![]), Some(&info), 2, &checker),
        Err("The transaction text does not match the original text to be signed.")
    );
    let mut fresh = funded_bridge();
    assert_eq!(
        handle_proposal(&mut fresh, signed, Some(vec![]), Some(&info), 2, &checker),
        Err("No candidate tx")
    );
}

#[test]
fn outputs_and_inputs_of_the_trustees() {
    let mut m = funded_bridge();
    let _ = &mut m;
    let mut utxos = chainx_core::utxo::UTXOStorage::new();
    let t = tx(60, vec![input(1, 0)], vec![pay(TRUSTEE, 5), pay(SENDER, 6), pay(TRUSTEE, 7)]);
    let made = handle_output(&mut utxos, &t, &address(TRUSTEE));
    assert_eq!(
        made,
        vec![
            UTXO { txid: h(60), index: 0, balance: 5, is_spent: false },
            UTXO { txid: h(60), index: 2, balance: 7, is_spent: false }
        ]
    );
    assert_eq!(utxos.max_index(), 2);
    let nothing = tx(61, vec![input(1, 0)], vec![pay(TRUSTEE, 0)]);
    assert_eq!(handle_output(&mut utxos, &nothing, &address(TRUSTEE)).len(), 1);
    assert_eq!(utxos.max_index(), 2);
    let spend = tx(62, vec![input(60, 0), input(60, 2), input(9, 9)], vec![pay(SENDER, 8), pay(TRUSTEE, 3)]);
    assert_eq!(handle_input(&mut utxos, &spend, &address(TRUSTEE)), 9);
    assert_eq!(utxos.get(0).unwrap().is_spent, true);
    assert_eq!(utxos.get(1).unwrap().is_spent, true);
}

#[test]
fn deposits_and_withdrawals_are_told() {
    let mut m = bridge(1);
    m.push_header(header(2, 1)).unwrap();
    let deposit = tx(50, vec![input(40, 0)], vec![pay(TRUSTEE, 5_000_000)]);
    m.push_transaction(relay(2, deposit, senders_tx(40))).unwrap();
    m.push_header(header(3, 2)).unwrap();
    let told = m.take_events();
    assert_eq!(told.len(), 1);
    assert!(matches!(&told[0], Event::Deposit(0, 5_000_000, script, a, t)
        if script.is_empty() && *a == address(SENDER) && *t == h(50)));
    let bind = tx(51, vec![input(41, 0)], vec![data(ACCOUNT_77)]);
    m.push_transaction(relay(3, bind, senders_tx(41))).unwrap();
    m.push_header(header(4, 3)).unwrap();
    let told = m.take_events();
    assert_eq!(told.len(), 2);
    assert!(matches!(&told[0], Event::DepositPending(77, 5_000_000, a) if *a == address(SENDER)));
    assert!(matches!(&told[1], Event::Deposit(77, 0, script, a, t)
        if *script == data(ACCOUNT_77).script_pubkey && *a == address(SENDER) && *t == h(51)));

    m.apply_withdrawal(application(1, 3000, Some(600))).unwrap();
    m.apply_withdrawal(application(2, 1000, Some(601))).unwrap();
    Proposal::create_proposal(&mut m, vec![2, 1], 100).unwrap();
    let p = m.withdrawal_proposal().unwrap();
    let mut wrong = signed_like(&p.tx, 69);
    wrong.version = 2;
    let spent = || tx(50, vec![input(1, 0)], vec![pay(TRUSTEE, 5_000_000)]);
    m.push_transaction(relay(4, wrong, spent())).unwrap();
    m.push_header(header(5, 4)).unwrap();
    let told = m.take_events();
    assert_eq!(told.len(), 1);
    assert!(matches!(&told[0], Event::WithdrawalFatalErr(t, proposed) if *t == h(69) && *proposed == p.tx.hash));
    m.enable_withdrawal();
    m.push_transaction(relay(5, signed_like(&p.tx, 70), spent())).unwrap();
    m.push_header(header(6, 5)).unwrap();
    let told = m.take_events();
    assert_eq!(told.len(), 2);
    assert!(matches!(&told[0], Event::Withdrawal(2, t) if *t == h(70)));
    assert!(matches!(&told[1], Event::Withdrawal(1, t) if *t == h(70)));
    assert!(m.take_events().is_empty());
    assert_eq!(m.assets().asset_balance(&77, &btc_token(), AssetType::Free), 4_996_000);
    assert_eq!(m.assets().asset_balance(&77, &btc_token(), AssetType::ReservedWithdrawal), 0);
}

#[test]
fn bridge_without_trustees_refuses_relays_and_rollbacks() {
    let mut ledger = new_test_ext();
    let asset = Asset::new(btc_token(), b"Bitcoin".to_vec(), AssetChain::Bitcoin, 8, Vec::new()).unwrap();
    ledger.register_asset(asset, true, false).unwrap();
    let chain = Chain::new(header(1, 0), 0, Params { max_fork_route_preset: 10, confirmations: 1, reserved_block: 1000 });
    let mut m = Module::new(chain, ledger, Network::Testnet);
    assert_eq!(m.trustee_address(), None);
    m.push_header(header(2, 1)).unwrap();
    let deposit = tx(50, vec![input(40, 0)], vec![pay(TRUSTEE, 10)]);
    assert_eq!(m.push_transaction(relay(2, deposit, senders_tx(40))), Err("Should set trustee address info first."));
    assert_eq!(m.rollback_tx(&h(2)), Err("should set RECEIVE_ADDRESS first"));
    assert_eq!(m.rollback_best(), Err(ChainErr::OtherErr("should set RECEIVE_ADDRESS first")));
    m.set_trustee_address(address(TRUSTEE));
    assert_eq!(m.rollback_best(), Ok(h(2)));
    assert_eq!(m.rollback_best(), Err(ChainErr::NotFound));
    assert_eq!(m.chain().best_index().hash, h(1));
}

#[test]
fn deposit_that_does_not_fit_is_refused() {
    let too_much = tx(50, vec![input(40, 0)], vec![pay(TRUSTEE, u64::MAX), pay(TRUSTEE, 1)]);
    assert_eq!(
        parse_deposit_outputs(&too_much, Some(&address(TRUSTEE))).err(),
        Some("deposit balance too high")
    );
    let fits = tx(50, vec![input(40, 0)], vec![pay(TRUSTEE, u64::MAX), pay(TRUSTEE, 0), pay(SENDER, 1)]);
    assert_eq!(parse_deposit_outputs(&fits, Some(&address(TRUSTEE))).unwrap().deposit_balance, u64::MAX);
    let mut m = bridge(1);
    m.push_header(header(2, 1)).unwrap();
    m.push_transaction(relay(2, too_much, senders_tx(40))).unwrap();
    m.push_header(header(3, 2)).unwrap();
    assert_eq!(m.handle_tx(&h(50)), Err("deposit balance too high"));
    assert_eq!(m.utxos().max_index(), 0);
    assert!(m.take_events().is_empty());
}

#[test]
fn transaction_relayed_into_a_confirmed_block_is_applied_at_once() {
    let mut m = bridge(1);
    m.push_header(header(2, 1)).unwrap();
    m.push_header(header(3, 2)).unwrap();
    assert!(m.chain().block_header_for(&h(2)).unwrap().confirmed);
    let mut text = ACCOUNT_77.to_vec();
    text.extend_from_slice(b":hub");
    let deposit = tx(50, vec![input(40, 0)], vec![data(&text), pay(TRUSTEE, 42)]);
    assert_eq!(m.push_transaction(relay(2, deposit, senders_tx(40))), Ok(()));
    assert_eq!(m.assets().asset_balance(&77, &btc_token(), AssetType::Free), 42);
}

#[test]
fn output_that_carries_data_pays_to_nobody() {
    let mut both = pay(TRUSTEE, 7);
    both.null_data = true;
    assert!(!both.is_key(&address(TRUSTEE)));
    let t = tx(60, vec![input(1, 0)], vec![both, pay(TRUSTEE, 5)]);
    let mut utxos = chainx_core::utxo::UTXOStorage::new();
    assert_eq!(
        handle_output(&mut utxos, &t, &address(TRUSTEE)),
        vec![UTXO { txid: h(60), index: 1, balance: 5, is_spent: false }]
    );
    assert_eq!(parse_deposit_outputs(&t, Some(&address(TRUSTEE))).unwrap().deposit_balance, 5);
    let only_data = tx(61, vec![input(1, 0)], vec![{
        let mut o = pay(TRUSTEE, 7);
        o.null_data = true;
        o
    }]);
    assert_eq!(detect_transaction_type(&only_data, &senders_tx(1), &address(TRUSTEE)), TxType::TrusteeBind);
}

#[test]
fn deposit_waits_once_however_often_it_is_put_to_wait() {
    let mut m = bridge(1);
    m.insert_pending_deposit(&address(SENDER), &h(50), 5);
    m.insert_pending_deposit(&address(SENDER), &h(51), 6);
    m.insert_pending_deposit(&address(SENDER), &h(50), 5);
    m.insert_pending_deposit(&address(TRUSTEE), &h(50), 5);
    assert_eq!(
        m.pending_deposit(&address(SENDER)),
        Some(vec![DepositCache { txid: h(50), balance: 5 }, DepositCache { txid: h(51), balance: 6 }])
    );
    assert_eq!(m.pending_deposit(&address(TRUSTEE)), Some(vec![DepositCache { txid: h(50), balance: 5 }]));
    m.update_binding(9, b"hub".to_vec(), address(SENDER));
    m.remove_pending_deposit(&address(SENDER), &9);
    assert_eq!(m.pending_deposit(&address(SENDER)), None);
    assert_eq!(m.assets().asset_balance(&9, &btc_token(), AssetType::Free), 11);
    assert_eq!(m.address_map(&address(SENDER)), Some(9));
}
