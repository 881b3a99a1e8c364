//! Relayed transactions: what they are, how they are told apart, and what a
//! deposit is made of.

use vstd::prelude::*;
use crate::bitcoin::{
    Address, Network, OutPoint, OutputView, ParsedPartialMerkleTree, Transaction, TransactionView,
    H160,
};
use crate::blockchain::{Chain, ChainState};
use crate::extracter::{binding, Extracter};
use crate::primitives::{bytes_clone, bytes_eq, AccountId, H256};
use crate::validator::validate_transaction as check_relay;
use crate::validator::relay_verdict;

verus! {

/// What a relayed transaction does.
#[derive(Clone, Copy, PartialEq, Eq, Structural, Debug)]
pub enum TxType {
    /// The trustees spend coins of the bridge.
    Withdrawal,
    /// Somebody pays the trustees.
    Deposit,
    /// Somebody names the account that deposits from their address belong to.
    TrusteeBind,
    /// Nothing that concerns the bridge.
    Unknown,
}

/// A relayed transaction with what was found out about it when it was relayed.
#[derive(Debug)]
pub struct TxInfo {
    pub raw_tx: Transaction,
    pub tx_type: TxType,
    /// Address that the first input spends from.
    pub input_address: Address,
}

/// A [`TxInfo`] as plain values.
pub struct TxInfoView {
    pub raw_tx: TransactionView,
    pub tx_type: TxType,
    pub input_address: Address,
}

impl View for TxInfo {
    type V = TxInfoView;

    open spec fn view(&self) -> TxInfoView {
        TxInfoView {
            raw_tx: self.raw_tx@,
            tx_type: self.tx_type,
            input_address: self.input_address,
        }
    }
}

impl TxInfo {
    pub fn duplicate(&self) -> (info: TxInfo)
        ensures
            info@ == self@,
    {
        TxInfo {
            raw_tx: self.raw_tx.duplicate(),
            tx_type: self.tx_type,
            input_address: self.input_address,
        }
    }
}

/// A transaction as it is relayed: with the block it is in, the proof that it is in that
/// block, and the transaction that its first input spends from.
#[derive(Debug)]
pub struct RelayTx {
    pub block_hash: H256,
    pub raw: Transaction,
    /// What the Merkle proof shows, or nothing where it is no proof.
    pub merkle_proof: Option<ParsedPartialMerkleTree>,
    pub previous_raw: Transaction,
}

/// A [`RelayTx`] as plain values.
pub struct RelayTxView {
    pub block_hash: H256,
    pub raw: TransactionView,
    pub merkle_proof: Option<(H256, Seq<H256>)>,
    pub previous_raw: TransactionView,
}

impl View for RelayTx {
    type V = RelayTxView;

    open spec fn view(&self) -> RelayTxView {
        RelayTxView {
            block_hash: self.block_hash,
            raw: self.raw@,
            merkle_proof: match self.merkle_proof {
                Some(parsed) => Some((parsed.root, parsed.hashes@)),
                None => None,
            },
            previous_raw: self.previous_raw@,
        }
    }
}

/// A deposit that waits for its account to be named.
#[derive(Clone, Copy, PartialEq, Eq, Structural, Debug)]
pub struct DepositCache {
    pub txid: H256,
    pub balance: u64,
}

/// The address that `out_point` spends from, going by the transaction `previous` that it
/// names an output of. There is none where `previous` has no such output or the output does
/// not pay to one address.
pub open spec fn spent_address(previous: TransactionView, out_point: OutPoint, network: Network) -> Option<
    Address,
> {
    if out_point.index < previous.outputs.len() && previous.outputs[out_point.index as int].destinations.len()
        == 1 {
        Some(
            Address {
                kind: previous.outputs[out_point.index as int].destinations[0].kind,
                network,
                hash: previous.outputs[out_point.index as int].destinations[0].hash,
            },
        )
    } else {
        None
    }
}

/// Whether `address` is an address with the hash `hash`.
pub open spec fn has_hash(address: Option<Address>, hash: H160) -> bool {
    match address {
        Some(a) => a.hash == hash,
        None => false,
    }
}

/// Whether the input `i` of `tx` spends from the address with the hash `hash`.
pub open spec fn input_spends_from(tx: TransactionView, previous: TransactionView, hash: H160, i: int) -> bool {
    has_hash(spent_address(previous, tx.inputs[i].previous_output, Network::Mainnet), hash)
}

/// Whether an input of `tx` spends from the address with the hash `hash`.
pub open spec fn spends_from(tx: TransactionView, previous: TransactionView, hash: H160) -> bool {
    exists|i: int| 0 <= i < tx.inputs.len() && #[trigger] input_spends_from(tx, previous, hash, i)
}

/// Whether an output of `tx` pays to `hash` and to nothing else.
pub open spec fn pays(tx: TransactionView, hash: H160) -> bool {
    exists|j: int| 0 <= j < tx.outputs.len() && (#[trigger] tx.outputs[j]).pays_to(hash)
}

/// Whether an output of `tx` carries data.
pub open spec fn carries_data(tx: TransactionView) -> bool {
    exists|j: int| 0 <= j < tx.outputs.len() && (#[trigger] tx.outputs[j]).null_data
}

/// What `tx` does, seen from the trustees' address with the hash `trustee`. The first of
/// these that applies: it spends from that address; it pays to it; it carries data.
pub open spec fn tx_type_of(tx: TransactionView, previous: TransactionView, trustee: H160) -> TxType {
    if spends_from(tx, previous, trustee) {
        TxType::Withdrawal
    } else if pays(tx, trustee) {
        TxType::Deposit
    } else if carries_data(tx) {
        TxType::TrusteeBind
    } else {
        TxType::Unknown
    }
}

/// The address that `out_point` spends from, going by the transaction `tx` that it names an
/// output of.
pub fn inspect_address(tx: &Transaction, out_point: OutPoint, network: Network) -> (r: Option<Address>)
    ensures
        r == spent_address(tx@, out_point, network),
{
    let index = out_point.index as usize;
    assert(tx@.outputs.len() == tx.outputs@.len());
    if index >= tx.outputs.len() {
        return None;
    }
    assert(tx@.outputs[index as int] == tx.outputs@[index as int]@);
    let output = &tx.outputs[index];
    if output.destinations.len() == 1 {
        Some(Address { kind: output.destinations[0].kind, network, hash: output.destinations[0].hash })
    } else {
        None
    }
}

/// Tells what `tx` does, seen from the trustees' address `trustee`.
pub fn detect_transaction_type(tx: &Transaction, previous: &Transaction, trustee: &Address) -> (t:
    TxType)
    ensures
        t == tx_type_of(tx@, previous@, trustee.hash),
{
    assert(tx@.inputs.len() == tx.inputs@.len());
    assert(tx@.outputs.len() == tx.outputs@.len());
    let mut i: usize = 0;
    while i < tx.inputs.len()
        invariant
            i <= tx.inputs.len(),
            forall|k: int|
                0 <= k < i ==> !#[trigger] input_spends_from(tx@, previous@, trustee.hash, k),
        decreases tx.inputs.len() - i,
    {
        assert(tx@.inputs[i as int] == tx.inputs@[i as int]@);
        match inspect_address(previous, tx.inputs[i].previous_output, Network::Mainnet) {
            Some(a) => {
                if a.hash == trustee.hash {
                    assert(input_spends_from(tx@, previous@, trustee.hash, i as int));
                    return TxType::Withdrawal;
                }
            },
            None => {},
        }
        i += 1;
    }
    let mut j: usize = 0;
    let mut data = false;
    while j < tx.outputs.len()
        invariant
            j <= tx.outputs.len(),
            !spends_from(tx@, previous@, trustee.hash),
            forall|k: int| 0 <= k < j ==> !(#[trigger] tx@.outputs[k]).pays_to(trustee.hash),
            data == exists|k: int| 0 <= k < j && (#[trigger] tx@.outputs[k]).null_data,
        decreases tx.outputs.len() - j,
    {
        assert(tx@.outputs[j as int] == tx.outputs@[j as int]@);
        if tx.outputs[j].is_key(trustee) {
            return TxType::Deposit;
        }
        if tx.outputs[j].null_data {
            data = true;
        }
        j += 1;
    }
    if data {
        TxType::TrusteeBind
    } else {
        TxType::Unknown
    }
}

/// Verdict on a relayed transaction and what it does: the block must be on the best chain,
/// the relay must hold up, and the transaction must concern the trustees.
pub open spec fn relay_type(chain: ChainState, tx: RelayTxView, trustee: H160) -> Result<
    TxType,
    &'static str,
> {
    if !chain.on_main(tx.block_hash) {
        Err("this tx's block not in the main chain")
    } else {
        match relay_verdict(chain, tx) {
            Err(e) => Err(e),
            Ok(()) => if tx_type_of(tx.raw, tx.previous_raw, trustee) == TxType::Unknown {
                Err("not found our pubkey, may be an unrelated tx")
            } else {
                Ok(tx_type_of(tx.raw, tx.previous_raw, trustee))
            },
        }
    }
}

/// Checks a relayed transaction whose block is on the best chain, and tells what it does,
/// seen from the trustees' address `receive_address`.
pub fn validate_transaction(chain: &Chain, tx: &RelayTx, receive_address: &Address) -> (r: Result<
    TxType,
    &'static str,
>)
    requires
        chain.wf(),
    ensures
        r == relay_type(chain@, tx@, receive_address.hash),
{
    if chain.number_for_hash(&tx.block_hash).is_none() {
        return Err("this tx's block not in the main chain");
    }
    match check_relay(chain, tx) {
        Ok(()) => {},
        Err(e) => {
            return Err(e);
        },
    }
    match detect_transaction_type(&tx.raw, &tx.previous_raw, receive_address) {
        TxType::Unknown => Err("not found our pubkey, may be an unrelated tx"),
        t => Ok(t),
    }
}

/// Sum of what the outputs `outputs` pay to `hash`. An output that carries data pays nothing.
pub open spec fn deposit_sum(outputs: Seq<OutputView>, hash: H160) -> nat
    decreases outputs.len(),
{
    if outputs.len() == 0 {
        0
    } else {
        deposit_sum(outputs.drop_last(), hash) + if outputs.last().pays_to(hash) {
            outputs.last().value as nat
        } else {
            0
        }
    }
}

/// Script of the first of `outputs` that carries data.
pub open spec fn first_data(outputs: Seq<OutputView>) -> Option<Seq<u8>>
    decreases outputs.len(),
{
    if outputs.len() == 0 {
        None
    } else {
        match first_data(outputs.drop_last()) {
            Some(script) => Some(script),
            None => if outputs.last().null_data {
                Some(outputs.last().script_pubkey)
            } else {
                None
            },
        }
    }
}

/// The account and the channel that a data script names. The data start after the first two
/// bytes of the script.
pub open spec fn script_binding(script: Option<Seq<u8>>) -> Option<(AccountId, Seq<u8>)> {
    match script {
        Some(s) => if s.len() >= 2 {
            binding(s.skip(2))
        } else {
            None
        },
        None => None,
    }
}

/// What the outputs of a deposit come to.
pub struct DepositOutputs {
    /// The account and the channel that the first data output names, if it names any.
    pub account_info: Option<(AccountId, Vec<u8>)>,
    /// Sum of what is paid to the trustees.
    pub deposit_balance: u64,
    /// Script of the data output, where it names an account.
    pub original: Vec<u8>,
}

/// A [`DepositOutputs`] as plain values.
pub struct DepositOutputsView {
    pub account_info: Option<(AccountId, Seq<u8>)>,
    pub deposit_balance: u64,
    pub original: Seq<u8>,
}

impl View for DepositOutputs {
    type V = DepositOutputsView;

    open spec fn view(&self) -> DepositOutputsView {
        DepositOutputsView {
            account_info: match self.account_info {
                Some((id, channel)) => Some((id, channel@)),
                None => None,
            },
            deposit_balance: self.deposit_balance,
            original: self.original@,
        }
    }
}

/// What the outputs of `tx` come to for the trustees' address with the hash `trustee`, or
/// why they cannot be taken as a deposit.
pub open spec fn deposit_outputs(tx: TransactionView, trustee: Option<H160>) -> Result<
    DepositOutputsView,
    &'static str,
> {
    match trustee {
        None => Err("Should set trustee address info first."),
        Some(hash) => if deposit_sum(tx.outputs, hash) > u64::MAX {
            Err("deposit balance too high")
        } else {
            Ok(
                DepositOutputsView {
                    account_info: script_binding(first_data(tx.outputs)),
                    deposit_balance: deposit_sum(tx.outputs, hash) as u64,
                    original: if script_binding(first_data(tx.outputs)) is Some {
                        first_data(tx.outputs)->0
                    } else {
                        Seq::empty()
                    },
                },
            )
        },
    }
}

/// The account and the channel that the data `script` name.
fn handle_opreturn(script: &Vec<u8>) -> (r: Option<(AccountId, Vec<u8>)>)
    requires
        script@.len() >= 2,
    ensures
        match r {
            Some((id, channel)) => binding(script@.skip(2)) == Some((id, channel@)),
            None => binding(script@.skip(2)) is None,
        },
{
    let mut data: Vec<u8> = Vec::new();
    let mut i: usize = 2;
    assert(data@ =~= script@.subrange(2, i as int));
    while i < script.len()
        invariant
            2 <= i <= script.len(),
            data@ == script@.subrange(2, i as int),
        decreases script.len() - i,
    {
        data.push(script[i]);
        assert(data@ =~= script@.subrange(2, i + 1));
        i += 1;
    }
    assert(script@.subrange(2, script.len() as int) =~= script@.skip(2));
    Extracter::new(data).account_info()
}

/// Reads the outputs of a deposit: sums up what is paid to the trustees, and takes the
/// account that the first data output names.
pub fn parse_deposit_outputs(tx: &Transaction, trustee_address: Option<&Address>) -> (r: Result<
    DepositOutputs,
    &'static str,
>)
    ensures
        match r {
            Ok(parsed) => deposit_outputs(
                tx@,
                match trustee_address {
                    Some(a) => Some(a.hash),
                    None => None,
                },
            ) == Ok::<DepositOutputsView, &'static str>(parsed@),
            Err(e) => deposit_outputs(
                tx@,
                match trustee_address {
                    Some(a) => Some(a.hash),
                    None => None,
                },
            ) == Err::<DepositOutputsView, &'static str>(e),
        },
{
    let trustee = match trustee_address {
        Some(a) => a,
        None => {
            return Err("Should set trustee address info first.");
        },
    };
    let mut deposit_balance: u64 = 0;
    let mut overflow = false;
    let mut account_info: Option<(AccountId, Vec<u8>)> = None;
    let mut has_opreturn = false;
    let mut original: Vec<u8> = Vec::new();
    let mut i: usize = 0;
    assert(tx@.outputs.len() == tx.outputs@.len());
    assert(tx@.outputs.take(0) =~= Seq::<OutputView>::empty());
    while i < tx.outputs.len()
        invariant
            i <= tx.outputs.len(),
            tx@.outputs.len() == tx.outputs@.len(),
            overflow == (deposit_sum(tx@.outputs.take(i as int), trustee.hash) > u64::MAX),
            !overflow ==> deposit_balance == deposit_sum(tx@.outputs.take(i as int), trustee.hash),
            has_opreturn == first_data(tx@.outputs.take(i as int)).is_some(),
            match account_info {
                Some((id, channel)) => script_binding(first_data(tx@.outputs.take(i as int)))
                    == Some((id, channel@)),
                None => script_binding(first_data(tx@.outputs.take(i as int))) is None,
            },
            original@ == if script_binding(first_data(tx@.outputs.take(i as int))) is Some {
                first_data(tx@.outputs.take(i as int))->0
            } else {
                Seq::empty()
            },
        decreases tx.outputs.len() - i,
    {
        let output = &tx.outputs[i];
        proof {
            assert(tx@.outputs[i as int] == output@);
            assert(tx@.outputs.take(i + 1).drop_last() =~= tx@.outputs.take(i as int));
            assert(tx@.outputs.take(i + 1).last() == output@);
        }
        if output.null_data {
            if has_opreturn == false {
                if output.script_pubkey.len() >= 2 {
                    account_info = handle_opreturn(&output.script_pubkey);
                    if account_info.is_some() {
                        original = bytes_clone(&output.script_pubkey);
                    }
                }
                has_opreturn = true;
            }
        } else if output.is_key(trustee) && output.value > 0 {
            if !overflow {
                match deposit_balance.checked_add(output.value) {
                    Some(sum) => {
                        deposit_balance = sum;
                    },
                    None => {
                        overflow = true;
                    },
                }
            }
        }
        i += 1;
    }
    assert(tx@.outputs.take(tx.outputs.len() as int) =~= tx@.outputs);
    if overflow {
        return Err("deposit balance too high");
    }
    Ok(DepositOutputs { account_info, deposit_balance, original })
}

/// Verdict on whether `tx1` is the transaction `tx2` but for its signatures: the same
/// version, outputs and lock time, and inputs that spend the same outputs in the same order.
pub open spec fn identical_verdict(tx1: TransactionView, tx2: TransactionView) -> Result<
    (),
    &'static str,
> {
    if tx1.version != tx2.version || tx1.lock_time != tx2.lock_time || tx1.outputs.len()
        != tx2.outputs.len() || exists|j: int|
        0 <= j < tx1.outputs.len() && ((#[trigger] tx1.outputs[j]).value != tx2.outputs[j].value
            || tx1.outputs[j].script_pubkey != tx2.outputs[j].script_pubkey) {
        Err("The transaction text does not match the original text to be signed.")
    } else if tx1.inputs.len() != tx2.inputs.len() {
        Err("The number of inputs of these two transactions mismatch.")
    } else if exists|i: int|
        0 <= i < tx1.inputs.len() && ((#[trigger] tx1.inputs[i]).previous_output
            != tx2.inputs[i].previous_output || tx1.inputs[i].sequence != tx2.inputs[i].sequence) {
        Err("The inputs of these two transactions mismatch.")
    } else {
        Ok(())
    }
}

/// Checks that `tx1` is the transaction `tx2` but for its signatures.
pub fn ensure_identical(tx1: &Transaction, tx2: &Transaction) -> (r: Result<(), &'static str>)
    ensures
        r == identical_verdict(tx1@, tx2@),
{
    assert(tx1@.outputs.len() == tx1.outputs@.len() && tx2@.outputs.len() == tx2.outputs@.len());
    assert(tx1@.inputs.len() == tx1.inputs@.len() && tx2@.inputs.len() == tx2.inputs@.len());
    if tx1.version != tx2.version || tx1.lock_time != tx2.lock_time || tx1.outputs.len()
        != tx2.outputs.len() {
        return Err("The transaction text does not match the original text to be signed.");
    }
    let mut j: usize = 0;
    while j < tx1.outputs.len()
        invariant
            j <= tx1.outputs.len(),
            tx1.outputs.len() == tx2.outputs.len(),
            tx1@.outputs.len() == tx1.outputs@.len() && tx2@.outputs.len() == tx2.outputs@.len(),
            forall|k: int|
                0 <= k < j ==> (#[trigger] tx1@.outputs[k]).value == tx2@.outputs[k].value
                    && tx1@.outputs[k].script_pubkey == tx2@.outputs[k].script_pubkey,
        decreases tx1.outputs.len() - j,
    {
        assert(tx1@.outputs[j as int] == tx1.outputs@[j as int]@);
        assert(tx2@.outputs[j as int] == tx2.outputs@[j as int]@);
        if tx1.outputs[j].value != tx2.outputs[j].value || !bytes_eq(
            &tx1.outputs[j].script_pubkey,
            &tx2.outputs[j].script_pubkey,
        ) {
            return Err("The transaction text does not match the original text to be signed.");
        }
        j += 1;
    }
    if tx1.inputs.len() != tx2.inputs.len() {
        return Err("The number of inputs of these two transactions mismatch.");
    }
    let mut i: usize = 0;
    while i < tx1.inputs.len()
        invariant
            i <= tx1.inputs.len(),
            tx1.inputs.len() == tx2.inputs.len(),
            tx1@.inputs.len() == tx1.inputs@.len() && tx2@.inputs.len() == tx2.inputs@.len(),
            identical_verdict(tx1@, tx2@) != Err::<(), &'static str>(
                "The transaction text does not match the original text to be signed.",
            ),
            forall|k: int|
                0 <= k < i ==> (#[trigger] tx1@.inputs[k]).previous_output
                    == tx2@.inputs[k].previous_output && tx1@.inputs[k].sequence
                    == tx2@.inputs[k].sequence,
        decreases tx1.inputs.len() - i,
    {
        assert(tx1@.inputs[i as int] == tx1.inputs@[i as int]@);
        assert(tx2@.inputs[i as int] == tx2.inputs@[i as int]@);
        if tx1.inputs[i].previous_output != tx2.inputs[i].previous_output || tx1.inputs[i].sequence
            != tx2.inputs[i].sequence {
            return Err("The inputs of these two transactions mismatch.");
        }
        i += 1;
    }
    Ok(())
}

} // verus!
