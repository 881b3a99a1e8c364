//! Deposits and withdrawals as they are shown to users: each with the state
//! it is in.

use vstd::prelude::*;
use crate::assetdef::Token;
use crate::bitcoin::{Address, TransactionView};
use crate::bridge::{btc, btc_token, Application, ApplicationView, BridgeState, Module, VoteResult};
use crate::blockchain::clone_hashes;
use crate::primitives::{bytes_clone, AccountId, Balance, H256};
use crate::tx::{deposit_outputs, ensure_identical, identical_verdict, parse_deposit_outputs, TxType};

verus! {

/// How far a deposit or a withdrawal has come.
#[derive(Clone, Copy, PartialEq, Eq, Structural, Debug)]
pub enum TxState {
    /// Applied for, and in no proposal yet.
    Applying,
    /// In the proposal that the trustees are signing.
    Signing,
    /// In the proposal that the trustees have signed.
    Processing,
    /// In a block that so many of so many blocks have been built on.
    Confirming(u32, u32),
    Confirmed,
}

/// When something happened: at which block of this chain, or at which time of the other.
#[derive(Clone, Copy, PartialEq, Eq, Structural, Debug)]
pub enum HeightOrTime {
    Height(u64),
    Timestamp(u64),
}

/// A deposit or a withdrawal as it is shown.
#[derive(Debug)]
pub struct RecordInfo {
    pub who: AccountId,
    pub token: Token,
    pub balance: Balance,
    /// The Bitcoin transaction, once there is one.
    pub txid: Option<H256>,
    /// The Bitcoin address: paid to by a withdrawal, paid from by a deposit.
    pub addr: Option<Address>,
    pub ext: Vec<u8>,
    pub height_or_time: HeightOrTime,
    /// Number of the application; zero for a deposit.
    pub withdrawal_id: u32,
    pub state: TxState,
}

/// A [`RecordInfo`] as plain values.
pub struct RecordInfoView {
    pub who: AccountId,
    pub token: Seq<u8>,
    pub balance: Balance,
    pub txid: Option<H256>,
    pub addr: Option<Address>,
    pub ext: Seq<u8>,
    pub height_or_time: HeightOrTime,
    pub withdrawal_id: u32,
    pub state: TxState,
}

impl View for RecordInfo {
    type V = RecordInfoView;

    open spec fn view(&self) -> RecordInfoView {
        RecordInfoView {
            who: self.who,
            token: self.token@,
            balance: self.balance,
            txid: self.txid,
            addr: self.addr,
            ext: self.ext@,
            height_or_time: self.height_or_time,
            withdrawal_id: self.withdrawal_id,
            state: self.state,
        }
    }
}

/// Records as plain values.
pub open spec fn records_view(records: Seq<RecordInfo>) -> Seq<RecordInfoView> {
    records.map_values(|r: RecordInfo| r@)
}

impl BridgeState {
    /// How many blocks are looked at, from the best block back, for what is not confirmed
    /// yet: one less than the confirmation depth.
    pub open spec fn unconfirmed_depth(self) -> nat {
        if self.chain.params.confirmations == 0 {
            0
        } else {
            (self.chain.params.confirmations - 1) as nat
        }
    }

    /// Whether `txid` is a relayed withdrawal that is the transaction `tx` but for its
    /// signatures.
    pub open spec fn is_withdrawal_of(self, txid: H256, tx: TransactionView) -> bool {
        self.txs.dom().contains(txid) && self.txs[txid].info.tx_type == TxType::Withdrawal
            && identical_verdict(self.txs[txid].info.raw_tx, tx).is_ok()
    }

    /// The last of the transactions `txids` that is a withdrawal of `tx`, or `so_far` where
    /// none is.
    pub open spec fn withdrawal_among(self, txids: Seq<H256>, tx: TransactionView, so_far: Option<H256>) -> Option<
        H256,
    >
        decreases txids.len(),
    {
        if txids.len() == 0 {
            so_far
        } else if self.is_withdrawal_of(txids.last(), tx) {
            Some(self.txs[txids.last()].info.raw_tx.hash)
        } else {
            self.withdrawal_among(txids.drop_last(), tx, so_far)
        }
    }

    /// The withdrawal of `tx` that is found last when `steps` blocks are looked through from
    /// the block `current` back, or `so_far` where none is found. The search ends at a block
    /// that is not stored.
    pub open spec fn withdrawal_in_chain(
        self,
        current: H256,
        steps: nat,
        tx: TransactionView,
        so_far: Option<H256>,
    ) -> Option<H256>
        decreases steps,
    {
        if steps == 0 || !self.chain.headers.dom().contains(current) {
            so_far
        } else {
            self.withdrawal_in_chain(
                self.chain.parent(current),
                (steps - 1) as nat,
                tx,
                self.withdrawal_among(self.chain.headers[current].txid_list, tx, so_far),
            )
        }
    }

    /// The Bitcoin transaction of the open proposal, where it has been relayed in a block
    /// that is not confirmed yet.
    pub open spec fn proposal_txid(self) -> Option<H256> {
        match self.proposal {
            Some(p) => self.withdrawal_in_chain(
                self.chain.best().hash,
                self.unconfirmed_depth(),
                p.tx,
                None,
            ),
            None => None,
        }
    }

    /// The application `a` as it is shown: in the state that the open proposal puts it in.
    pub open spec fn withdrawal_record(self, a: ApplicationView) -> RecordInfoView {
        RecordInfoView {
            who: a.applicant,
            token: btc(),
            balance: a.balance,
            txid: self.proposal_txid(),
            addr: a.destination,
            ext: a.ext,
            height_or_time: HeightOrTime::Height(a.height),
            withdrawal_id: a.id,
            state: match self.proposal {
                Some(p) => if p.withdrawal_id_list.contains(a.id) {
                    match p.sig_state {
                        VoteResult::Unfinish => TxState::Signing,
                        VoteResult::Finish => TxState::Processing,
                    }
                } else {
                    TxState::Applying
                },
                None => TxState::Applying,
            },
        }
    }

    /// The relayed deposit `txid`, found in a block of the time `time` that `index` blocks
    /// have been built on, as it is shown. There is nothing to show where its outputs cannot
    /// be read.
    pub open spec fn deposit_record(self, txid: H256, time: u32, index: u32) -> Option<RecordInfoView> {
        match deposit_outputs(self.txs[txid].info.raw_tx, self.trustee_hash()) {
            Err(_) => None,
            Ok(parsed) => Some(
                RecordInfoView {
                    who: match parsed.account_info {
                        Some((who, _)) => who,
                        None => 0,
                    },
                    token: btc(),
                    balance: parsed.deposit_balance,
                    txid: Some(self.txs[txid].info.raw_tx.hash),
                    addr: Some(self.txs[txid].info.input_address),
                    ext: parsed.original,
                    height_or_time: HeightOrTime::Timestamp(time as u64),
                    withdrawal_id: 0,
                    state: TxState::Confirming(
                        (index + 1) as u32,
                        self.chain.params.confirmations,
                    ),
                },
            ),
        }
    }

    /// Whether `txid` is a relayed deposit.
    pub open spec fn is_deposit(self, txid: H256) -> bool {
        self.txs.dom().contains(txid) && self.txs[txid].info.tx_type == TxType::Deposit
    }

    /// The deposits among the transactions `txids` as they are shown, or nothing where one
    /// of them cannot be shown.
    pub open spec fn deposits_among(self, txids: Seq<H256>, time: u32, index: u32) -> Option<
        Seq<RecordInfoView>,
    >
        decreases txids.len(),
    {
        if txids.len() == 0 {
            Some(Seq::empty())
        } else {
            match self.deposits_among(txids.drop_last(), time, index) {
                None => None,
                Some(before) => if self.is_deposit(txids.last()) {
                    match self.deposit_record(txids.last(), time, index) {
                        None => None,
                        Some(r) => Some(before.push(r)),
                    }
                } else {
                    Some(before)
                },
            }
        }
    }

    /// The deposits in the blocks from `current` back, as they are shown, where `index`
    /// blocks have been gone back already and `steps` are gone back in all. There is nothing
    /// to show where a block is not stored or a deposit cannot be shown.
    pub open spec fn deposits_in_chain(self, current: H256, index: u32, steps: u32) -> Option<
        Seq<RecordInfoView>,
    >
        decreases steps - index,
    {
        if index >= steps {
            Some(Seq::empty())
        } else if !self.chain.headers.dom().contains(current) {
            None
        } else {
            match self.deposits_among(
                self.chain.headers[current].txid_list,
                self.chain.headers[current].header.time,
                index,
            ) {
                None => None,
                Some(here) => match self.deposits_in_chain(
                    self.chain.parent(current),
                    (index + 1) as u32,
                    steps,
                ) {
                    None => None,
                    Some(rest) => Some(here + rest),
                },
            }
        }
    }
}

/// Records with `records` put in front of them.
pub open spec fn prepend_records(records: Seq<RecordInfoView>, rest: Option<Seq<RecordInfoView>>) -> Option<
    Seq<RecordInfoView>,
> {
    match rest {
        Some(more) => Some(records + more),
        None => None,
    }
}

impl Module {
    /// The last of the transactions `txids` that is a withdrawal of `tx`.
    fn withdrawal_among(&self, txids: &Vec<H256>, tx: &crate::bitcoin::Transaction, so_far: Option<H256>) -> (r:
        Option<H256>)
        requires
            self.wf(),
        ensures
            r == self@.withdrawal_among(txids@, tx@, so_far),
    {
        let mut found = so_far;
        let mut i: usize = 0;
        assert(txids@.take(0) =~= Seq::<H256>::empty());
        while i < txids.len()
            invariant
                self.wf(),
                i <= txids.len(),
                found == self@.withdrawal_among(txids@.take(i as int), tx@, so_far),
            decreases txids.len() - i,
        {
            proof {
                assert(txids@.take(i + 1).drop_last() =~= txids@.take(i as int));
                assert(txids@.take(i + 1).last() == txids@[i as int]);
            }
            match self.tx_for(&txids[i]) {
                Some(info) => {
                    match info.tx_type {
                        TxType::Withdrawal => {
                            if ensure_identical(&info.raw_tx, tx).is_ok() {
                                found = Some(info.raw_tx.hash);
                            }
                        },
                        _ => {},
                    }
                },
                None => {},
            }
            i += 1;
        }
        assert(txids@.take(txids.len() as int) =~= txids@);
        found
    }

    /// The Bitcoin transaction of the open proposal, where it has been relayed in a block
    /// that is not confirmed yet.
    fn proposal_txid(&self) -> (r: Option<H256>)
        requires
            self.wf(),
        ensures
            r == self@.proposal_txid(),
    {
        let proposal = match self.withdrawal_proposal() {
            Some(p) => p,
            None => {
                return None;
            },
        };
        let confirmations = self.chain().params().confirmations;
        let steps: u32 = if confirmations == 0 {
            0
        } else {
            confirmations - 1
        };
        let mut current = self.chain().best_index().hash;
        let mut found: Option<H256> = None;
        let mut k: u32 = 0;
        while k < steps
            invariant
                self.wf(),
                k <= steps,
                self@.proposal == Some(proposal@),
                self@.proposal_txid() == self@.withdrawal_in_chain(
                    current,
                    (steps - k) as nat,
                    proposal@.tx,
                    found,
                ),
            decreases steps - k,
        {
            let txids = match self.chain().block_header_for(&current) {
                Some(info) => {
                    current = info.header.previous_header_hash;
                    clone_hashes(&info.txid_list)
                },
                None => {
                    return found;
                },
            };
            found = self.withdrawal_among(&txids, &proposal.tx, found);
            k += 1;
        }
        found
    }

    /// The applications for withdrawal as they are shown, in the order in which they were
    /// made. An application is being signed or processed where it is in the open proposal,
    /// and applied for otherwise.
    pub fn withdrawal_list(&self) -> (records: Vec<RecordInfo>)
        requires
            self.wf(),
        ensures
            records_view(records@) == self.application_list().map_values(
                |a: ApplicationView| self@.withdrawal_record(a),
            ),
    {
        let applications = self.withdrawal_applications();
        let proposal = self.withdrawal_proposal();
        let tx_hash = self.proposal_txid();
        let ghost shown = |a: ApplicationView| self@.withdrawal_record(a);
        let ghost name = |a: Application| a@;
        let mut records: Vec<RecordInfo> = Vec::new();
        let mut i: usize = 0;
        assert(applications@.map_values(name).len() == applications@.len());
        assert(records_view(records@) =~= self.application_list().map_values(shown).take(0));
        while i < applications.len()
            invariant
                self.wf(),
                i <= applications.len(),
                applications@.len() == self.application_list().len(),
                name == |a: Application| a@,
                shown == |a: ApplicationView| self@.withdrawal_record(a),
                applications@.map_values(name) == self.application_list(),
                tx_hash == self@.proposal_txid(),
                match proposal {
                    Some(p) => self@.proposal == Some(p@),
                    None => self@.proposal is None,
                },
                records_view(records@) == self.application_list().map_values(shown).take(i as int),
            decreases applications.len() - i,
        {
            let appl = &applications[i];
            assert(applications@.map_values(name)[i as int] == appl@);
            let state = match &proposal {
                Some(p) => {
                    let ids = &p.withdrawal_id_list;
                    let mut inside = false;
                    let mut j: usize = 0;
                    while j < ids.len()
                        invariant
                            j <= ids.len(),
                            inside == ids@.take(j as int).contains(appl.id),
                        decreases ids.len() - j,
                    {
                        let ghost done = ids@.take(j as int);
                        let ghost next = ids@.take(j + 1);
                        proof {
                            if done.contains(appl.id) {
                                let m = choose|m: int| 0 <= m < done.len() && done[m] == appl.id;
                                assert(next[m] == appl.id);
                            }
                            if next.contains(appl.id) && ids@[j as int] != appl.id {
                                let m = choose|m: int| 0 <= m < next.len() && next[m] == appl.id;
                                assert(done[m] == appl.id);
                            }
                            if ids@[j as int] == appl.id {
                                assert(next[j as int] == appl.id);
                            }
                        }
                        if ids[j] == appl.id {
                            inside = true;
                        }
                        j += 1;
                    }
                    assert(ids@.take(ids.len() as int) =~= ids@);
                    if inside {
                        match p.sig_state {
                            VoteResult::Unfinish => TxState::Signing,
                            VoteResult::Finish => TxState::Processing,
                        }
                    } else {
                        TxState::Applying
                    }
                },
                None => TxState::Applying,
            };
            let ghost before = records@;
            records.push(
                RecordInfo {
                    who: appl.applicant,
                    token: btc_token(),
                    balance: appl.balance,
                    txid: tx_hash,
                    addr: appl.destination,
                    ext: bytes_clone(&appl.ext),
                    height_or_time: HeightOrTime::Height(appl.height),
                    withdrawal_id: appl.id,
                    state,
                },
            );
            assert(records_view(records@) =~= records_view(before).push(
                self@.withdrawal_record(appl@),
            ));
            assert(records_view(records@) =~= self.application_list().map_values(shown).take(i + 1));
            i += 1;
        }
        assert(self.application_list().map_values(shown).take(applications.len() as int)
            =~= self.application_list().map_values(shown));
        records
    }

    /// The deposits among the transactions `txids` as they are shown.
    fn deposits_among(&self, txids: &Vec<H256>, time: u32, index: u32) -> (r: Option<Vec<RecordInfo>>)
        requires
            self.wf(),
            index < u32::MAX,
        ensures
            match r {
                Some(records) => self@.deposits_among(txids@, time, index) == Some(
                    records_view(records@),
                ),
                None => self@.deposits_among(txids@, time, index) is None,
            },
    {
        let confirmations = self.chain().params().confirmations;
        let trustee = self.trustee_address();
        let mut records: Vec<RecordInfo> = Vec::new();
        let mut i: usize = 0;
        assert(txids@.take(0) =~= Seq::<H256>::empty());
        assert(records_view(records@) =~= Seq::<RecordInfoView>::empty());
        while i < txids.len()
            invariant
                self.wf(),
                i <= txids.len(),
                index < u32::MAX,
                confirmations == self@.chain.params.confirmations,
                trustee == self@.trustee,
                self@.deposits_among(txids@.take(i as int), time, index) == Some(
                    records_view(records@),
                ),
            decreases txids.len() - i,
        {
            proof {
                assert(txids@.take(i + 1).drop_last() =~= txids@.take(i as int));
                assert(txids@.take(i + 1).last() == txids@[i as int]);
            }
            match self.tx_for(&txids[i]) {
                Some(tx_info) => {
                    match tx_info.tx_type {
                        TxType::Deposit => {
                            let parsed = match parse_deposit_outputs(
                                &tx_info.raw_tx,
                                trustee.as_ref(),
                            ) {
                                Ok(parsed) => parsed,
                                Err(_) => {
                                    proof {
                                        lemma_deposits_among_fails(self@, txids@, time, index, i + 1);
                                    }
                                    return None;
                                },
                            };
                            let who = match &parsed.account_info {
                                Some((who, _)) => *who,
                                None => 0,
                            };
                            let ghost before = records@;
                            records.push(
                                RecordInfo {
                                    who,
                                    token: btc_token(),
                                    balance: parsed.deposit_balance,
                                    txid: Some(tx_info.raw_tx.hash),
                                    addr: Some(tx_info.input_address),
                                    ext: parsed.original,
                                    height_or_time: HeightOrTime::Timestamp(time as u64),
                                    withdrawal_id: 0,
                                    state: TxState::Confirming(index + 1, confirmations),
                                },
                            );
                            assert(records_view(records@) =~= records_view(before).push(
                                self@.deposit_record(txids@[i as int], time, index)->0,
                            ));
                        },
                        _ => {},
                    }
                },
                None => {},
            }
            i += 1;
        }
        assert(txids@.take(txids.len() as int) =~= txids@);
        Some(records)
    }

    /// The deposits that are not confirmed yet, as they are shown: those relayed in the best
    /// block and in the blocks behind it, one block less than the confirmation depth, each
    /// with the number of blocks built on it. Nothing is shown where one of these blocks is
    /// not stored or one of the deposits cannot be read.
    pub fn deposit_list(&self) -> (records: Vec<RecordInfo>)
        requires
            self.wf(),
        ensures
            records_view(records@) == match self@.deposits_in_chain(
                self@.chain.best().hash,
                0,
                self@.unconfirmed_depth() as u32,
            ) {
                Some(shown) => shown,
                None => Seq::empty(),
            },
    {
        let confirmations = self.chain().params().confirmations;
        let steps: u32 = if confirmations == 0 {
            0
        } else {
            confirmations - 1
        };
        let mut records: Vec<RecordInfo> = Vec::new();
        let mut current = self.chain().best_index().hash;
        let ghost start = current;
        let mut index: u32 = 0;
        proof {
            let whole = self@.deposits_in_chain(start, 0, steps);
            if whole is Some {
                assert(Seq::<RecordInfoView>::empty() + whole->0 =~= whole->0);
            }
            assert(records_view(records@) =~= Seq::<RecordInfoView>::empty());
        }
        while index < steps
            invariant
                self.wf(),
                index <= steps,
                steps == self@.unconfirmed_depth(),
                start == self@.chain.best().hash,
                self@.deposits_in_chain(start, 0, steps) == prepend_records(
                    records_view(records@),
                    self@.deposits_in_chain(current, index, steps),
                ),
            decreases steps - index,
        {
            let (txids, time, parent) = match self.chain().block_header_for(&current) {
                Some(info) => (
                    clone_hashes(&info.txid_list),
                    info.header.time,
                    info.header.previous_header_hash,
                ),
                None => {
                    return Vec::new();
                },
            };
            let mut here = match self.deposits_among(&txids, time, index) {
                Some(here) => here,
                None => {
                    return Vec::new();
                },
            };
            let ghost before = records@;
            let ghost added = here@;
            records.append(&mut here);
            proof {
                assert(records_view(records@) =~= records_view(before) + records_view(added));
                let rest = self@.deposits_in_chain(parent, (index + 1) as u32, steps);
                if rest is Some {
                    assert(records_view(before) + (records_view(added) + rest->0) =~= records_view(
                        records@,
                    ) + rest->0);
                }
            }
            current = parent;
            index += 1;
        }
        proof {
            assert(records_view(records@) + Seq::<RecordInfoView>::empty() =~= records_view(records@));
        }
        records
    }
}

/// Once a deposit cannot be shown, no longer list of transactions can.
pub proof fn lemma_deposits_among_fails(s: BridgeState, txids: Seq<H256>, time: u32, index: u32, n: int)
    requires
        0 <= n <= txids.len(),
        s.deposits_among(txids.take(n), time, index) is None,
    ensures
        s.deposits_among(txids, time, index) is None,
    decreases txids.len() - n,
{
    if n == txids.len() {
        assert(txids.take(n) =~= txids);
    } else {
        assert(txids.take(n + 1).drop_last() =~= txids.take(n));
        lemma_deposits_among_fails(s, txids, time, index, n + 1);
    }
}

} // verus!
