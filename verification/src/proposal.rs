//! Withdrawal proposals: the one transaction by which the trustees pay out
//! the applications that are due.

use vstd::prelude::*;
use crate::bitcoin::Transaction;
use crate::bridge::Module;
use crate::validator::{no_key_verifies, some_key_verifies, SignatureCheck, TrusteeInfo};

verus! {

/// Makes withdrawal proposals.
pub struct Proposal;

impl Proposal {
    /// Proposes a withdrawal that pays out the applications `withdrawal_record_indexs`, each
    /// less `fee`. No proposal is made while another is open, and nothing is changed where
    /// the proposal cannot be made.
    pub fn create_proposal(module: &mut Module, withdrawal_record_indexs: Vec<u32>, fee: u64) -> (r:
        Result<(), &'static str>)
        requires
            old(module).wf(),
        ensures
            final(module).wf(),
            r == old(module)@.proposal_verdict(withdrawal_record_indexs@, fee),
            r.is_ok() ==> final(module)@ == old(module)@.proposed(withdrawal_record_indexs@, fee),
            r.is_err() ==> final(module)@ == old(module)@,
    {
        module.create_withdrawal_proposal(withdrawal_record_indexs, fee)
    }
}

/// Takes in the proposed withdrawal with the trustees' signatures on it.
pub fn handle_proposal<F: Fn(&Transaction, &SignatureCheck) -> bool>(
    module: &mut Module,
    tx: Transaction,
    sigs: Option<Vec<Vec<u8>>>,
    trustee_info: Option<&TrusteeInfo>,
    required: u32,
    checker: &F,
) -> (r: Result<(), &'static str>)
    requires
        old(module).wf(),
        forall|t: &Transaction, c: &SignatureCheck| call_requires(*checker, (t, c)),
    ensures
        final(module).wf(),
        old(module)@.signing_form(tx@, sigs, trustee_info) matches Err(e) ==> r == Err::<
            (),
            &'static str,
        >(e),
        old(module)@.signing_form(tx@, sigs, trustee_info).is_ok() && sigs->0@.len() == 0 ==> r.is_ok(),
        match r {
            Ok(()) => old(module)@.signing_form(tx@, sigs, trustee_info).is_ok() && final(module)@
                == old(module)@.signed(tx@, sigs->0@.len(), required) && forall|i: int|
                0 <= i < sigs->0@.len() ==> some_key_verifies(
                    *checker,
                    &tx,
                    (#[trigger] sigs->0@[i])@,
                    trustee_info->0.pubkeys->0@,
                    trustee_info->0.hot_redeem_script@,
                ),
            Err(e) => final(module)@ == old(module)@ && (old(module)@.signing_form(
                tx@,
                sigs,
                trustee_info,
            ).is_ok() ==> e == "Verify sign failed" && exists|i: int|
                0 <= i < sigs->0@.len() && no_key_verifies(
                    *checker,
                    &tx,
                    (#[trigger] sigs->0@[i])@,
                    trustee_info->0.pubkeys->0@,
                    trustee_info->0.hot_redeem_script@,
                )),
        },
{
    module.sign_withdrawal_proposal(tx, sigs, trustee_info, required, checker)
}

} // verus!
