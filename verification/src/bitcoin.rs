//! Bitcoin data as the bridge reads it. Hashes, destinations of scripts and
//! parsed Merkle proofs arrive already computed: the bridge compares and
//! follows them, it does not recompute them.

use vstd::prelude::*;
use crate::primitives::{be_word, bytes_clone, H256};
use crate::table::Key;

verus! {

/// A 160-bit hash, as found in addresses.
#[derive(Clone, Copy, PartialEq, Eq, Structural, Debug, Hash)]
pub struct H160 {
    pub w0: u64,
    pub w1: u64,
    pub w2: u32,
}

/// The form of an address.
#[derive(Clone, Copy, PartialEq, Eq, Structural, Debug, Hash)]
pub enum Type {
    /// Pay to public key hash.
    P2PKH,
    /// Pay to script hash.
    P2SH,
}

/// The network an address belongs to.
#[derive(Clone, Copy, PartialEq, Eq, Structural, Debug, Hash)]
pub enum Network {
    Mainnet,
    Testnet,
}

/// A Bitcoin address.
#[derive(Clone, Copy, PartialEq, Eq, Structural, Debug, Hash)]
pub struct Address {
    pub kind: Type,
    pub network: Network,
    pub hash: H160,
}

impl Key for Address {
    type Id = Address;

    open spec fn id(&self) -> Address {
        *self
    }

    fn same(&self, other: &Self) -> (r: bool) {
        *self == *other
    }

    fn dup(&self) -> (r: Self) {
        *self
    }
}

/// A destination that a script pays to.
#[derive(Clone, Copy, PartialEq, Eq, Structural, Debug, Hash)]
pub struct ScriptAddress {
    pub kind: Type,
    pub hash: H160,
}

/// Reference to one output of a transaction.
#[derive(Clone, Copy, PartialEq, Eq, Structural, Debug, Hash)]
pub struct OutPoint {
    pub hash: H256,
    pub index: u32,
}

/// An input of a transaction.
#[derive(Debug)]
pub struct TransactionInput {
    pub previous_output: OutPoint,
    pub script_sig: Vec<u8>,
    pub sequence: u32,
}

/// An output of a transaction, with what its script was found to be.
#[derive(Debug)]
pub struct TransactionOutput {
    pub value: u64,
    pub script_pubkey: Vec<u8>,
    /// Destinations that `script_pubkey` pays to.
    pub destinations: Vec<ScriptAddress>,
    /// Whether `script_pubkey` carries data and can never be spent.
    pub null_data: bool,
}

/// A transaction, with its identifier.
#[derive(Debug)]
pub struct Transaction {
    /// Identifier of the transaction.
    pub hash: H256,
    pub version: i32,
    pub inputs: Vec<TransactionInput>,
    pub outputs: Vec<TransactionOutput>,
    pub lock_time: u32,
}

/// A [`TransactionInput`] as plain values.
pub struct InputView {
    pub previous_output: OutPoint,
    pub script_sig: Seq<u8>,
    pub sequence: u32,
}

/// A [`TransactionOutput`] as plain values.
pub struct OutputView {
    pub value: u64,
    pub script_pubkey: Seq<u8>,
    pub destinations: Seq<ScriptAddress>,
    pub null_data: bool,
}

/// A [`Transaction`] as plain values.
pub struct TransactionView {
    pub hash: H256,
    pub version: i32,
    pub inputs: Seq<InputView>,
    pub outputs: Seq<OutputView>,
    pub lock_time: u32,
}

impl View for TransactionInput {
    type V = InputView;

    open spec fn view(&self) -> InputView {
        InputView {
            previous_output: self.previous_output,
            script_sig: self.script_sig@,
            sequence: self.sequence,
        }
    }
}

impl View for TransactionOutput {
    type V = OutputView;

    open spec fn view(&self) -> OutputView {
        OutputView {
            value: self.value,
            script_pubkey: self.script_pubkey@,
            destinations: self.destinations@,
            null_data: self.null_data,
        }
    }
}

impl View for Transaction {
    type V = TransactionView;

    open spec fn view(&self) -> TransactionView {
        TransactionView {
            hash: self.hash,
            version: self.version,
            inputs: inputs_view(self.inputs@),
            outputs: outputs_view(self.outputs@),
            lock_time: self.lock_time,
        }
    }
}

impl OutputView {
    /// Whether the output pays to `hash` and to nothing else. An output that carries data
    /// can never be spent, so it pays to nobody, whatever its script names.
    pub open spec fn pays_to(self, hash: H160) -> bool {
        !self.null_data && self.destinations.len() == 1 && self.destinations[0].hash == hash
    }
}

impl TransactionOutput {
    /// Whether the output pays to `address` and to nothing else. An output that carries data
    /// pays to nobody.
    pub fn is_key(&self, address: &Address) -> (r: bool)
        ensures
            r == self@.pays_to(address.hash),
    {
        !self.null_data && self.destinations.len() == 1 && self.destinations[0].hash
            == address.hash
    }

    pub fn duplicate(&self) -> (o: TransactionOutput)
        ensures
            o@ == self@,
    {
        let mut destinations: Vec<ScriptAddress> = Vec::new();
        let mut i: usize = 0;
        while i < self.destinations.len()
            invariant
                i <= self.destinations.len(),
                destinations@ == self.destinations@.take(i as int),
            decreases self.destinations.len() - i,
        {
            destinations.push(self.destinations[i]);
            assert(destinations@ =~= self.destinations@.take(i + 1));
            i += 1;
        }
        assert(self.destinations@.take(self.destinations.len() as int) =~= self.destinations@);
        TransactionOutput {
            value: self.value,
            script_pubkey: bytes_clone(&self.script_pubkey),
            destinations,
            null_data: self.null_data,
        }
    }
}

impl TransactionInput {
    pub fn duplicate(&self) -> (i: TransactionInput)
        ensures
            i@ == self@,
    {
        TransactionInput {
            previous_output: self.previous_output,
            script_sig: bytes_clone(&self.script_sig),
            sequence: self.sequence,
        }
    }
}

/// Inputs as plain values.
pub open spec fn inputs_view(inputs: Seq<TransactionInput>) -> Seq<InputView> {
    inputs.map_values(|i: TransactionInput| i@)
}

/// Outputs as plain values.
pub open spec fn outputs_view(outputs: Seq<TransactionOutput>) -> Seq<OutputView> {
    outputs.map_values(|o: TransactionOutput| o@)
}

impl Transaction {
    pub fn duplicate(&self) -> (t: Transaction)
        ensures
            t@ == self@,
    {
        let mut inputs: Vec<TransactionInput> = Vec::new();
        let mut i: usize = 0;
        while i < self.inputs.len()
            invariant
                i <= self.inputs.len(),
                inputs_view(inputs@) == inputs_view(self.inputs@).take(i as int),
            decreases self.inputs.len() - i,
        {
            let ghost before = inputs@;
            inputs.push(self.inputs[i].duplicate());
            assert(inputs_view(inputs@) =~= inputs_view(before).push(self.inputs@[i as int]@));
            assert(inputs_view(self.inputs@).take(i + 1) =~= inputs_view(self.inputs@).take(
                i as int,
            ).push(self.inputs@[i as int]@));
            i += 1;
        }
        let mut outputs: Vec<TransactionOutput> = Vec::new();
        let mut j: usize = 0;
        while j < self.outputs.len()
            invariant
                j <= self.outputs.len(),
                outputs_view(outputs@) == outputs_view(self.outputs@).take(j as int),
            decreases self.outputs.len() - j,
        {
            let ghost before = outputs@;
            outputs.push(self.outputs[j].duplicate());
            assert(outputs_view(outputs@) =~= outputs_view(before).push(self.outputs@[j as int]@));
            assert(outputs_view(self.outputs@).take(j + 1) =~= outputs_view(self.outputs@).take(
                j as int,
            ).push(self.outputs@[j as int]@));
            j += 1;
        }
        assert(inputs_view(self.inputs@).take(self.inputs.len() as int) =~= inputs_view(
            self.inputs@,
        ));
        assert(outputs_view(self.outputs@).take(self.outputs.len() as int) =~= outputs_view(
            self.outputs@,
        ));
        Transaction {
            hash: self.hash,
            version: self.version,
            inputs,
            outputs,
            lock_time: self.lock_time,
        }
    }
}

/// A block header.
#[derive(Clone, Copy, PartialEq, Eq, Structural, Debug)]
pub struct BlockHeader {
    /// Hash of the header.
    pub hash: H256,
    pub version: u32,
    pub previous_header_hash: H256,
    pub merkle_root_hash: H256,
    pub time: u32,
    pub bits: u32,
    pub nonce: u32,
}

/// What a Merkle proof shows once it has been followed: the root it leads to and the
/// transactions it proves.
#[derive(Debug)]
pub struct ParsedPartialMerkleTree {
    pub root: H256,
    pub hashes: Vec<H256>,
}

/// Whether `hash` occurs in `hashes`.
pub fn contains_hash(hashes: &Vec<H256>, hash: &H256) -> (r: bool)
    ensures
        r == hashes@.contains(*hash),
{
    let mut i: usize = 0;
    while i < hashes.len()
        invariant
            i <= hashes.len(),
            forall|j: int| 0 <= j < i ==> hashes@[j] != *hash,
        decreases hashes.len() - i,
    {
        if hashes[i] == *hash {
            return true;
        }
        i += 1;
    }
    false
}


/// The last `n` bytes of `v`, most significant first.
pub open spec fn be_bytes(v: nat, n: nat) -> Seq<u8>
    decreases n,
{
    if n == 0 {
        Seq::empty()
    } else {
        be_bytes(v / 256, (n - 1) as nat).push((v % 256) as u8)
    }
}

impl H160 {
    /// The twenty bytes of the hash.
    pub open spec fn bytes(self) -> Seq<u8> {
        be_bytes(self.w0 as nat, 8) + be_bytes(self.w1 as nat, 8) + be_bytes(self.w2 as nat, 4)
    }
}

/// Appends the last `n` bytes of `v` to `out`, most significant first.
fn push_be(out: &mut Vec<u8>, v: u64, n: usize)
    requires
        n <= 8,
    ensures
        final(out)@ == old(out)@ + be_bytes(v as nat, n as nat),
{
    let mut le: Vec<u8> = Vec::new();
    let mut rest = v;
    let mut k: usize = 0;
    assert(be_bytes(rest as nat, n as nat) + le@.reverse() =~= be_bytes(v as nat, n as nat));
    while k < n
        invariant
            k <= n,
            le@.len() == k,
            be_bytes(v as nat, n as nat) == be_bytes(rest as nat, (n - k) as nat) + le@.reverse(),
        decreases n - k,
    {
        let ghost before = le@;
        le.push((rest % 256) as u8);
        proof {
            let shorter = be_bytes((rest / 256) as nat, (n - k - 1) as nat);
            assert(le@.reverse() =~= seq![(rest % 256) as u8] + before.reverse());
            assert(shorter.push((rest % 256) as u8) + before.reverse() =~= shorter + le@.reverse());
        }
        rest = rest / 256;
        k += 1;
    }
    assert(be_bytes(rest as nat, 0) + le@.reverse() =~= le@.reverse());
    let mut m: usize = n;
    assert(out@ =~= old(out)@ + le@.reverse().take(0));
    while m > 0
        invariant
            m <= n,
            le@.len() == n,
            out@ == old(out)@ + le@.reverse().take(n - m),
        decreases m,
    {
        m -= 1;
        out.push(le[m]);
        assert(out@ =~= old(out)@ + le@.reverse().take(n - m));
    }
    assert(le@.reverse().take(n as int) =~= le@.reverse());
}

/// The script that pays to the public key with the hash `hash`.
pub open spec fn p2pkh_script(hash: H160) -> Seq<u8> {
    seq![0x76u8, 0xa9u8, 0x14u8] + hash.bytes() + seq![0x88u8, 0xacu8]
}

/// The script that pays to the script with the hash `hash`.
pub open spec fn p2sh_script(hash: H160) -> Seq<u8> {
    seq![0xa9u8, 0x14u8] + hash.bytes() + seq![0x87u8]
}

/// The script that pays to `address`.
pub open spec fn script_for(address: Address) -> Seq<u8> {
    match address.kind {
        Type::P2PKH => p2pkh_script(address.hash),
        Type::P2SH => p2sh_script(address.hash),
    }
}

/// The output that pays `value` to `address`.
pub open spec fn output_for(address: Address, value: u64) -> OutputView {
    OutputView {
        value,
        script_pubkey: script_for(address),
        destinations: seq![ScriptAddress { kind: address.kind, hash: address.hash }],
        null_data: false,
    }
}

impl H160 {
    pub fn to_bytes(&self) -> (bytes: Vec<u8>)
        ensures
            bytes@ == self.bytes(),
    {
        let mut out: Vec<u8> = Vec::new();
        push_be(&mut out, self.w0, 8);
        push_be(&mut out, self.w1, 8);
        push_be(&mut out, self.w2 as u64, 4);
        assert(out@ =~= self.bytes());
        out
    }
}

/// Script building.
pub struct Builder;

impl Builder {
    /// Builds the script that pays to the public key with the hash `hash`: duplicate, hash,
    /// push of twenty bytes, compare, check the signature.
    pub fn build_p2pkh(hash: &H160) -> (script: Vec<u8>)
        ensures
            script@ == p2pkh_script(*hash),
    {
        let mut out: Vec<u8> = Vec::new();
        out.push(0x76u8);
        out.push(0xa9u8);
        out.push(0x14u8);
        let mut bytes = hash.to_bytes();
        out.append(&mut bytes);
        out.push(0x88u8);
        out.push(0xacu8);
        assert(out@ =~= p2pkh_script(*hash));
        out
    }

    /// Builds the script that pays to the script with the hash `hash`: hash, push of twenty
    /// bytes, compare.
    pub fn build_p2sh(hash: &H160) -> (script: Vec<u8>)
        ensures
            script@ == p2sh_script(*hash),
    {
        let mut out: Vec<u8> = Vec::new();
        out.push(0xa9u8);
        out.push(0x14u8);
        let mut bytes = hash.to_bytes();
        out.append(&mut bytes);
        out.push(0x87u8);
        assert(out@ =~= p2sh_script(*hash));
        out
    }
}

/// Builds the output that pays `value` to `address`.
pub fn pay_to(address: &Address, value: u64) -> (output: TransactionOutput)
    ensures
        output@ == output_for(*address, value),
{
    let script = match address.kind {
        Type::P2PKH => Builder::build_p2pkh(&address.hash),
        Type::P2SH => Builder::build_p2sh(&address.hash),
    };
    let mut destinations: Vec<ScriptAddress> = Vec::new();
    destinations.push(ScriptAddress { kind: address.kind, hash: address.hash });
    assert(destinations@ =~= seq![ScriptAddress { kind: address.kind, hash: address.hash }]);
    TransactionOutput { value, script_pubkey: script, destinations, null_data: false }
}


/// The number that the four bytes of `bytes` from `at` on write, most significant byte first.
pub open spec fn be_half_word(bytes: Seq<u8>, at: int) -> u32 {
    (bytes[at] as int * 0x100_0000 + bytes[at + 1] as int * 0x1_0000 + bytes[at + 2] as int * 0x100
        + bytes[at + 3] as int) as u32
}

impl H160 {
    /// The hash held in the 20 bytes `bytes`: the words take eight, eight and four of them,
    /// most significant byte first.
    pub open spec fn spec_from_bytes(bytes: Seq<u8>) -> H160 {
        H160 { w0: be_word(bytes, 0), w1: be_word(bytes, 8), w2: be_half_word(bytes, 16) }
    }

    pub fn from_bytes(bytes: &[u8; 20]) -> (h: H160)
        ensures
            h == H160::spec_from_bytes(bytes@),
    {
        H160 {
            w0: (bytes[0] as u64) * 0x100_0000_0000_0000 + (bytes[1] as u64) * 0x1_0000_0000_0000
                + (bytes[2] as u64) * 0x100_0000_0000 + (bytes[3] as u64) * 0x1_0000_0000
                + (bytes[4] as u64) * 0x100_0000 + (bytes[5] as u64) * 0x1_0000 + (bytes[6] as u64)
                * 0x100 + (bytes[7] as u64),
            w1: (bytes[8] as u64) * 0x100_0000_0000_0000 + (bytes[9] as u64) * 0x1_0000_0000_0000
                + (bytes[10] as u64) * 0x100_0000_0000 + (bytes[11] as u64) * 0x1_0000_0000
                + (bytes[12] as u64) * 0x100_0000 + (bytes[13] as u64) * 0x1_0000 + (bytes[14] as u64)
                * 0x100 + (bytes[15] as u64),
            w2: (bytes[16] as u32) * 0x100_0000 + (bytes[17] as u32) * 0x1_0000 + (bytes[18] as u32)
                * 0x100 + (bytes[19] as u32),
        }
    }
}

impl H256 {
    /// The 32 bytes of the hash: eight for each word, most significant byte first.
    pub open spec fn bytes(self) -> Seq<u8> {
        be_bytes(self.w0 as nat, 8) + be_bytes(self.w1 as nat, 8) + be_bytes(self.w2 as nat, 8)
            + be_bytes(self.w3 as nat, 8)
    }

    pub fn to_bytes(&self) -> (bytes: Vec<u8>)
        ensures
            bytes@ == self.bytes(),
    {
        let mut out: Vec<u8> = Vec::new();
        push_be(&mut out, self.w0, 8);
        push_be(&mut out, self.w1, 8);
        push_be(&mut out, self.w2, 8);
        push_be(&mut out, self.w3, 8);
        assert(out@ =~= self.bytes());
        out
    }
}

} // verus!
