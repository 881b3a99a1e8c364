//! Checks on relayed transactions and on the signatures of a withdrawal.

use vstd::prelude::*;
use crate::bitcoin::{contains_hash, Transaction, TransactionOutput, TransactionView};
use crate::blockchain::{Chain, ChainState};
use crate::tx::{RelayTx, RelayTxView};
use crate::primitives::bytes_clone;

verus! {

/// The form of a public key.
#[derive(Clone, Copy, PartialEq, Eq, Structural, Debug)]
pub enum PublicKind {
    /// 65 bytes.
    Normal,
    /// 33 bytes.
    Compressed,
}

/// The form of a public key of these bytes, if they are one.
pub open spec fn public_kind(pubkey: Seq<u8>) -> Option<PublicKind> {
    if pubkey.len() == 33 {
        Some(PublicKind::Compressed)
    } else if pubkey.len() == 65 {
        Some(PublicKind::Normal)
    } else {
        None
    }
}

/// Hash type that commits a signature to every input and output.
pub const SIGHASH_ALL: u32 = 1;

/// `SIGHASH_ALL` with the fork id flag.
pub const SIGHASH_ALL_FORKID: u32 = 0x41;

/// One signature to check against one input of a transaction.
#[derive(Debug)]
pub struct SignatureCheck {
    pub signature: Vec<u8>,
    pub public: Vec<u8>,
    pub kind: PublicKind,
    /// Script of the output that the input spends.
    pub script_code: Vec<u8>,
    pub input_index: u32,
    pub input_amount: u64,
    pub sighashtype: u32,
}

/// A [`SignatureCheck`] as plain values.
pub struct SignatureCheckView {
    pub signature: Seq<u8>,
    pub public: Seq<u8>,
    pub kind: PublicKind,
    pub script_code: Seq<u8>,
    pub input_index: u32,
    pub input_amount: u64,
    pub sighashtype: u32,
}

impl View for SignatureCheck {
    type V = SignatureCheckView;

    open spec fn view(&self) -> SignatureCheckView {
        SignatureCheckView {
            signature: self.signature@,
            public: self.public@,
            kind: self.kind,
            script_code: self.script_code@,
            input_index: self.input_index,
            input_amount: self.input_amount,
            sighashtype: self.sighashtype,
        }
    }
}

/// Form of the public key `pubkey`, if it is one.
pub fn public_from_slice(pubkey: &Vec<u8>) -> (kind: Option<PublicKind>)
    ensures
        kind == public_kind(pubkey@),
{
    if pubkey.len() == 33 {
        Some(PublicKind::Compressed)
    } else if pubkey.len() == 65 {
        Some(PublicKind::Normal)
    } else {
        None
    }
}

/// The check of `sig` by the public key `pubkey` of form `kind` on the first input of a
/// transaction, which spends `input_amount` from an output with the script `script_code`.
pub open spec fn first_input_check(
    sig: Seq<u8>,
    pubkey: Seq<u8>,
    kind: PublicKind,
    script_code: Seq<u8>,
    input_amount: u64,
    sighashtype: u32,
) -> SignatureCheckView {
    SignatureCheckView {
        signature: sig,
        public: pubkey,
        kind,
        script_code,
        input_index: 0,
        input_amount,
        sighashtype,
    }
}

/// Whether `ok` is a verdict that `checker` gave on `request` for `tx`.
pub open spec fn checked_by<F: Fn(&Transaction, &SignatureCheck) -> bool>(
    checker: F,
    tx: &Transaction,
    request: SignatureCheckView,
    ok: bool,
) -> bool {
    exists|c: SignatureCheck| (#[trigger] c@) == request && call_ensures(checker, (tx, &c), ok)
}

/// Whether `ok` is what checking `sig` by `pubkey` comes to: bytes that are no public key
/// verify nothing, and otherwise `checker` decides.
pub open spec fn signature_verdict<F: Fn(&Transaction, &SignatureCheck) -> bool>(
    checker: F,
    tx: &Transaction,
    sig: Seq<u8>,
    pubkey: Seq<u8>,
    script_code: Seq<u8>,
    input_amount: u64,
    sighashtype: u32,
    ok: bool,
) -> bool {
    match public_kind(pubkey) {
        None => !ok,
        Some(kind) => checked_by(
            checker,
            tx,
            first_input_check(sig, pubkey, kind, script_code, input_amount, sighashtype),
            ok,
        ),
    }
}

fn check_first_input<F: Fn(&Transaction, &SignatureCheck) -> bool>(
    sig: &Vec<u8>,
    pubkey: &Vec<u8>,
    tx: &Transaction,
    script_code: &Vec<u8>,
    input_amount: u64,
    sighashtype: u32,
    checker: &F,
) -> (ok: bool)
    requires
        forall|t: &Transaction, c: &SignatureCheck| call_requires(*checker, (t, c)),
    ensures
        signature_verdict(
            *checker,
            tx,
            sig@,
            pubkey@,
            script_code@,
            input_amount,
            sighashtype,
            ok,
        ),
{
    let kind = match public_from_slice(pubkey) {
        Some(kind) => kind,
        None => {
            return false;
        },
    };
    let check = SignatureCheck {
        signature: bytes_clone(sig),
        public: bytes_clone(pubkey),
        kind,
        script_code: bytes_clone(script_code),
        input_index: 0,
        input_amount,
        sighashtype,
    };
    let ok = checker(tx, &check);
    assert(check@ == first_input_check(sig@, pubkey@, kind, script_code@, input_amount, sighashtype)
        && call_ensures(*checker, (tx, &check), ok));
    ok
}

/// Checks `sig` by `pubkey` on the first input of `tx`, which spends an output with the
/// script `script_pubkey`. The signature commits to every input and output; the amount spent
/// is not part of what was signed.
pub fn verify_sig<F: Fn(&Transaction, &SignatureCheck) -> bool>(
    sig: &Vec<u8>,
    pubkey: &Vec<u8>,
    tx: &Transaction,
    script_pubkey: &Vec<u8>,
    checker: &F,
) -> (ok: bool)
    requires
        forall|t: &Transaction, c: &SignatureCheck| call_requires(*checker, (t, c)),
    ensures
        signature_verdict(*checker, tx, sig@, pubkey@, script_pubkey@, 0, SIGHASH_ALL, ok),
{
    check_first_input(sig, pubkey, tx, script_pubkey, 0, SIGHASH_ALL, checker)
}

/// Checks `sign` by `pubkey` on the first input of `tx`, which spends `output`. The signature
/// commits to every input and output and to the amount of `output`.
pub fn verify_sign<F: Fn(&Transaction, &SignatureCheck) -> bool>(
    sign: &Vec<u8>,
    pubkey: &Vec<u8>,
    tx: &Transaction,
    output: &TransactionOutput,
    checker: &F,
) -> (ok: bool)
    requires
        forall|t: &Transaction, c: &SignatureCheck| call_requires(*checker, (t, c)),
    ensures
        signature_verdict(
            *checker,
            tx,
            sign@,
            pubkey@,
            output@.script_pubkey,
            output@.value,
            SIGHASH_ALL_FORKID,
            ok,
        ),
{
    check_first_input(
        sign,
        pubkey,
        tx,
        &output.script_pubkey,
        output.value,
        SIGHASH_ALL_FORKID,
        checker,
    )
}

/// What is known of the trustees who hold the bridge's coins.
#[derive(Debug)]
pub struct TrusteeInfo {
    /// Script that the trustees' signatures redeem.
    pub hot_redeem_script: Vec<u8>,
    /// Public keys that the redeem script names, if it is a well-formed redeem script.
    pub pubkeys: Option<Vec<Vec<u8>>>,
}

/// Whether some key among the first `n` of `pubkeys` verified `sig`.
pub open spec fn some_key_verifies<F: Fn(&Transaction, &SignatureCheck) -> bool>(
    checker: F,
    tx: &Transaction,
    sig: Seq<u8>,
    pubkeys: Seq<Vec<u8>>,
    script_code: Seq<u8>,
) -> bool {
    exists|j: int|
        0 <= j < pubkeys.len() && #[trigger] signature_verdict(
            checker,
            tx,
            sig,
            pubkeys[j]@,
            script_code,
            0,
            SIGHASH_ALL,
            true,
        )
}

/// Whether every key of `pubkeys` failed to verify `sig`.
pub open spec fn no_key_verifies<F: Fn(&Transaction, &SignatureCheck) -> bool>(
    checker: F,
    tx: &Transaction,
    sig: Seq<u8>,
    pubkeys: Seq<Vec<u8>>,
    script_code: Seq<u8>,
) -> bool {
    forall|j: int|
        0 <= j < pubkeys.len() ==> #[trigger] signature_verdict(
            checker,
            tx,
            sig,
            pubkeys[j]@,
            script_code,
            0,
            SIGHASH_ALL,
            false,
        )
}

/// Verdict on the form of a signed withdrawal, before any signature is checked: the first
/// error that applies, if any does.
pub open spec fn signed_tx_form(
    tx: TransactionView,
    sigs: Option<Vec<Vec<u8>>>,
    trustee_info: Option<&TrusteeInfo>,
) -> Result<(), &'static str> {
    if tx.inputs.len() == 0 || tx.inputs[0].script_sig.len() < 2 {
        Err("Invalid signature, script_sig is too short")
    } else if sigs is None {
        Err("Invalid signature")
    } else if trustee_info is None {
        Err("Should set trustee address info first.")
    } else if trustee_info->0.pubkeys is None {
        Err("Parse redeem script failed")
    } else {
        Ok(())
    }
}

/// Checks the signatures of a signed withdrawal. `sigs` are the signatures found in the
/// script of the first input, or `None` where that script is no multi-signature script.
/// Each signature must verify by one of the trustees' keys; the signatures are handed back
/// when they all do.
pub fn parse_and_check_signed_tx<F: Fn(&Transaction, &SignatureCheck) -> bool>(
    tx: &Transaction,
    sigs: Option<Vec<Vec<u8>>>,
    trustee_info: Option<&TrusteeInfo>,
    checker: &F,
) -> (r: Result<Vec<Vec<u8>>, &'static str>)
    requires
        forall|t: &Transaction, c: &SignatureCheck| call_requires(*checker, (t, c)),
    ensures
        signed_tx_form(tx@, sigs, trustee_info) matches Err(e) ==> r == Err::<
            Vec<Vec<u8>>,
            &'static str,
        >(e),
        signed_tx_form(tx@, sigs, trustee_info).is_ok() ==> match r {
            Ok(checked) => checked == sigs->0 && forall|i: int|
                0 <= i < checked@.len() ==> some_key_verifies(
                    *checker,
                    tx,
                    (#[trigger] checked@[i])@,
                    trustee_info->0.pubkeys->0@,
                    trustee_info->0.hot_redeem_script@,
                ),
            Err(e) => e == "Verify sign failed" && exists|i: int|
                0 <= i < sigs->0@.len() && no_key_verifies(
                    *checker,
                    tx,
                    (#[trigger] sigs->0@[i])@,
                    trustee_info->0.pubkeys->0@,
                    trustee_info->0.hot_redeem_script@,
                ),
        },
{
    if tx.inputs.len() == 0 || tx.inputs[0].script_sig.len() < 2 {
        assert(tx@.inputs.len() == tx.inputs@.len());
        if tx.inputs.len() > 0 {
            assert(tx@.inputs[0] == tx.inputs@[0]@);
        }
        return Err("Invalid signature, script_sig is too short");
    }
    assert(tx@.inputs[0] == tx.inputs@[0]@);
    let list = match sigs {
        Some(list) => list,
        None => {
            return Err("Invalid signature");
        },
    };
    let info = match trustee_info {
        Some(info) => info,
        None => {
            return Err("Should set trustee address info first.");
        },
    };
    let pubkeys = match &info.pubkeys {
        Some(pubkeys) => pubkeys,
        None => {
            return Err("Parse redeem script failed");
        },
    };
    let mut i: usize = 0;
    while i < list.len()
        invariant
            i <= list.len(),
            sigs == Some(list),
            trustee_info == Some(info),
            info.pubkeys == Some(*pubkeys),
            signed_tx_form(tx@, sigs, trustee_info).is_ok(),
            forall|t: &Transaction, c: &SignatureCheck| call_requires(*checker, (t, c)),
            forall|k: int|
                0 <= k < i ==> some_key_verifies(
                    *checker,
                    tx,
                    (#[trigger] list@[k])@,
                    pubkeys@,
                    info.hot_redeem_script@,
                ),
        decreases list.len() - i,
    {
        let mut verify = false;
        let mut j: usize = 0;
        while j < pubkeys.len()
            invariant_except_break
                !verify,
                forall|k: int|
                    0 <= k < j ==> #[trigger] signature_verdict(
                        *checker,
                        tx,
                        list@[i as int]@,
                        pubkeys@[k]@,
                        info.hot_redeem_script@,
                        0,
                        SIGHASH_ALL,
                        false,
                    ),
            invariant
                i < list.len(),
                j <= pubkeys.len(),
                forall|t: &Transaction, c: &SignatureCheck| call_requires(*checker, (t, c)),
            ensures
                verify ==> some_key_verifies(
                    *checker,
                    tx,
                    list@[i as int]@,
                    pubkeys@,
                    info.hot_redeem_script@,
                ),
                !verify ==> no_key_verifies(
                    *checker,
                    tx,
                    list@[i as int]@,
                    pubkeys@,
                    info.hot_redeem_script@,
                ),
            decreases pubkeys.len() - j,
        {
            if verify_sig(&list[i], &pubkeys[j], tx, &info.hot_redeem_script, checker) {
                verify = true;
                assert(signature_verdict(
                    *checker,
                    tx,
                    list@[i as int]@,
                    pubkeys@[j as int]@,
                    info.hot_redeem_script@,
                    0,
                    SIGHASH_ALL,
                    true,
                ));
                break ;
            }
            j += 1;
        }
        if !verify {
            assert(no_key_verifies(
                *checker,
                tx,
                (sigs->0@[i as int])@,
                trustee_info->0.pubkeys->0@,
                trustee_info->0.hot_redeem_script@,
            ));
            return Err("Verify sign failed");
        }
        i += 1;
    }
    Ok(list)
}

/// Verdict on a relayed transaction. The checks are made in this order: the block is
/// stored; the proof is one; it leads to the Merkle root of the block; it proves the
/// transaction; the transaction that was relayed with it is the one that its first input
/// spends from.
pub open spec fn relay_verdict(chain: ChainState, tx: RelayTxView) -> Result<(), &'static str> {
    if !chain.headers.dom().contains(tx.block_hash) {
        Err("tx's block header must exist before")
    } else {
        match tx.merkle_proof {
            None => Err("Parse partial merkle tree failed"),
            Some((root, hashes)) => if chain.headers[tx.block_hash].header.merkle_root_hash
                != root {
                Err("Check failed for merkle tree proof")
            } else if !hashes.contains(tx.raw.hash) {
                Err("Tx hash should in ParsedPartialMerkleTree")
            } else if tx.raw.inputs.len() == 0 || tx.previous_raw.hash
                != tx.raw.inputs[0].previous_output.hash {
                Err("Previous tx id not equal input point hash")
            } else {
                Ok(())
            },
        }
    }
}

/// Checks a relayed transaction against the stored header of its block.
pub fn validate_transaction(chain: &Chain, tx: &RelayTx) -> (r: Result<(), &'static str>)
    requires
        chain.wf(),
    ensures
        r == relay_verdict(chain@, tx@),
{
    let header_info = match chain.block_header_for(&tx.block_hash) {
        Some(info) => info,
        None => {
            return Err("tx's block header must exist before");
        },
    };
    let merkle_root = header_info.header.merkle_root_hash;
    match &tx.merkle_proof {
        Some(parsed) => {
            if merkle_root != parsed.root {
                return Err("Check failed for merkle tree proof");
            }
            if !contains_hash(&parsed.hashes, &tx.raw.hash) {
                return Err("Tx hash should in ParsedPartialMerkleTree");
            }
        },
        None => {
            return Err("Parse partial merkle tree failed");
        },
    }
    assert(tx@.raw.inputs.len() == tx.raw.inputs@.len());
    if tx.raw.inputs.len() == 0 {
        return Err("Previous tx id not equal input point hash");
    }
    assert(tx@.raw.inputs[0] == tx.raw.inputs@[0]@);
    if tx.previous_raw.hash != tx.raw.inputs[0].previous_output.hash {
        return Err("Previous tx id not equal input point hash");
    }
    Ok(())
}

} // verus!
