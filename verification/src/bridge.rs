//! The bridge: the header chain, the balance store and the trustees' outputs
//! held together, and what a confirmed Bitcoin transaction does to them.

use vstd::prelude::*;
use crate::assets::{AssetType, LedgerState};
use crate::assetdef::Token;
use crate::bitcoin::{
    inputs_view, output_for, outputs_view, pay_to, Address, BlockHeader, InputView, Network, OutPoint,
    OutputView, Transaction, TransactionInput, TransactionOutput, TransactionView, H160,
};
use crate::blockchain::{
    clone_hashes, BlockHeaderInfo, BlockOrigin, BlockOriginView, Chain, ChainErr, ChainState,
};
use crate::primitives::{bytes_clone, lemma_take_to_set, AccountId, Balance, H256};
use crate::validator::{
    no_key_verifies, parse_and_check_signed_tx, relay_verdict, signed_tx_form, some_key_verifies,
    validate_transaction,
    SignatureCheck, TrusteeInfo,
};
use crate::table::Table;
use crate::tx::{
    deposit_outputs, detect_transaction_type, ensure_identical, identical_verdict, inspect_address,
    parse_deposit_outputs, spent_address, tx_type_of, DepositCache, RelayTx, RelayTxView, TxInfo,
    TxInfoView, TxType,
};
use crate::utxo::{marked, marked_balance, selection, total_balance, updated, UTXOStorage, UTXO};

verus! {

/// The token that deposits are credited in.
pub open spec fn btc() -> Seq<u8> {
    seq![0x42u8, 0x54u8, 0x43u8]
}

/// The token that deposits are credited in.
pub fn btc_token() -> (t: Token)
    ensures
        t@ == btc(),
{
    let mut t: Vec<u8> = Vec::new();
    t.push(0x42u8);
    t.push(0x54u8);
    t.push(0x43u8);
    assert(t@ =~= btc());
    t
}

/// The account that deposits from an address belong to.
#[derive(Debug)]
pub struct Binding {
    pub who: AccountId,
    /// Name of the channel through which the account came.
    pub channel: Vec<u8>,
}

impl View for Binding {
    type V = (AccountId, Seq<u8>);

    open spec fn view(&self) -> (AccountId, Seq<u8>) {
        (self.who, self.channel@)
    }
}

/// How far the trustees are with signing.
#[derive(Clone, Copy, PartialEq, Eq, Structural, Debug)]
pub enum VoteResult {
    Unfinish,
    Finish,
}

/// The withdrawal that the trustees are working on.
#[derive(Debug)]
pub struct WithdrawalProposal {
    pub sig_state: VoteResult,
    /// The applications that the transaction pays out.
    pub withdrawal_id_list: Vec<u32>,
    pub tx: Transaction,
}

/// A [`WithdrawalProposal`] as plain values.
pub struct ProposalView {
    pub sig_state: VoteResult,
    pub withdrawal_id_list: Seq<u32>,
    pub tx: TransactionView,
}

impl View for WithdrawalProposal {
    type V = ProposalView;

    open spec fn view(&self) -> ProposalView {
        ProposalView {
            sig_state: self.sig_state,
            withdrawal_id_list: self.withdrawal_id_list@,
            tx: self.tx@,
        }
    }
}

/// Copies a list of application numbers.
pub fn clone_ids(v: &Vec<u32>) -> (out: Vec<u32>)
    ensures
        out@ == v@,
{
    let mut out: Vec<u32> = Vec::new();
    let mut i: usize = 0;
    while i < v.len()
        invariant
            i <= v.len(),
            out@ == v@.take(i as int),
        decreases v.len() - i,
    {
        out.push(v[i]);
        assert(out@ =~= v@.take(i + 1));
        i += 1;
    }
    assert(v@.take(v.len() as int) =~= v@);
    out
}

impl WithdrawalProposal {
    pub fn duplicate(&self) -> (p: WithdrawalProposal)
        ensures
            p@ == self@,
    {
        WithdrawalProposal {
            sig_state: self.sig_state,
            withdrawal_id_list: clone_ids(&self.withdrawal_id_list),
            tx: self.tx.duplicate(),
        }
    }
}

/// An application for a withdrawal.
#[derive(Debug)]
pub struct Application {
    pub id: u32,
    pub applicant: AccountId,
    pub balance: Balance,
    /// Where to pay to, if the address given is one.
    pub destination: Option<Address>,
    pub ext: Vec<u8>,
    /// Number of the block at which the application was made.
    pub height: u64,
}

/// An [`Application`] as plain values.
pub struct ApplicationView {
    pub id: u32,
    pub applicant: AccountId,
    pub balance: Balance,
    pub destination: Option<Address>,
    pub ext: Seq<u8>,
    pub height: u64,
}

impl View for Application {
    type V = ApplicationView;

    open spec fn view(&self) -> ApplicationView {
        ApplicationView {
            id: self.id,
            applicant: self.applicant,
            balance: self.balance,
            destination: self.destination,
            ext: self.ext@,
            height: self.height,
        }
    }
}

impl Application {
    pub fn duplicate(&self) -> (a: Application)
        ensures
            a@ == self@,
    {
        Application {
            id: self.id,
            applicant: self.applicant,
            balance: self.balance,
            destination: self.destination,
            ext: bytes_clone(&self.ext),
            height: self.height,
        }
    }
}

/// A relayed transaction and whether it has been applied.
#[derive(Debug)]
pub struct TxRecord {
    pub info: TxInfo,
    pub handled: bool,
}

/// A [`TxRecord`] as plain values.
pub struct TxRecordView {
    pub info: TxInfoView,
    pub handled: bool,
}

impl View for TxRecord {
    type V = TxRecordView;

    open spec fn view(&self) -> TxRecordView {
        TxRecordView { info: self.info@, handled: self.handled }
    }
}

/// Copies a list of waiting deposits.
pub fn clone_caches(v: &Vec<DepositCache>) -> (out: Vec<DepositCache>)
    ensures
        out@ == v@,
{
    let mut out: Vec<DepositCache> = Vec::new();
    let mut i: usize = 0;
    while i < v.len()
        invariant
            i <= v.len(),
            out@ == v@.take(i as int),
        decreases v.len() - i,
    {
        out.push(v[i]);
        assert(out@ =~= v@.take(i + 1));
        i += 1;
    }
    assert(v@.take(v.len() as int) =~= v@);
    out
}

/// What the bridge tells those who watch it.
#[derive(Debug)]
pub enum Event {
    /// A deposit was applied: the account it belongs to (zero while it waits for one), the
    /// amount, the data script that named the account, the address it came from, and the
    /// transaction.
    Deposit(AccountId, Balance, Vec<u8>, Address, H256),
    /// A deposit that waited was credited: the account, the amount, and the address it came
    /// from.
    DepositPending(AccountId, Balance, Address),
    /// An application was paid out: its number and the transaction.
    Withdrawal(u32, H256),
    /// A withdrawal was met that is not the proposed one: the transaction, and the
    /// transaction of the proposal (zero where there is no proposal).
    WithdrawalFatalErr(H256, H256),
}

/// An [`Event`] as plain values.
pub enum EventView {
    Deposit(AccountId, Balance, Seq<u8>, Address, H256),
    DepositPending(AccountId, Balance, Address),
    Withdrawal(u32, H256),
    WithdrawalFatalErr(H256, H256),
}

impl View for Event {
    type V = EventView;

    open spec fn view(&self) -> EventView {
        match self {
            Event::Deposit(who, balance, script, address, txid) => EventView::Deposit(
                *who,
                *balance,
                script@,
                *address,
                *txid,
            ),
            Event::DepositPending(who, balance, address) => EventView::DepositPending(
                *who,
                *balance,
                *address,
            ),
            Event::Withdrawal(id, txid) => EventView::Withdrawal(*id, *txid),
            Event::WithdrawalFatalErr(txid, proposed) => EventView::WithdrawalFatalErr(
                *txid,
                *proposed,
            ),
        }
    }
}

/// Events as plain values.
pub open spec fn events_view(events: Seq<Event>) -> Seq<EventView> {
    events.map_values(|e: Event| e@)
}

/// The bridge as plain values.
pub struct BridgeState {
    pub chain: ChainState,
    pub ledger: LedgerState,
    /// The trustees' outputs, in the order in which they were added.
    pub utxos: Seq<UTXO>,
    /// Relayed transactions, by their identifier.
    pub txs: Map<H256, TxRecordView>,
    /// Deposits that wait for their account to be named, by the address they came from.
    pub pending: Map<Address, Seq<DepositCache>>,
    /// Account and channel that deposits from an address belong to.
    pub bindings: Map<Address, (AccountId, Seq<u8>)>,
    /// The withdrawal that the trustees are working on.
    pub proposal: Option<ProposalView>,
    /// Set when a fault was met that an operator has to look into. No withdrawal is
    /// proposed while it is set.
    pub withdrawal_disabled: bool,
    /// Address of the trustees.
    pub trustee: Option<Address>,
    /// Applications for withdrawal, by their number.
    pub applications: Map<u32, ApplicationView>,
    pub network: Network,
    /// What happened, oldest first, since the events were last taken.
    pub events: Seq<EventView>,
}

/// The bridge.
pub struct Module {
    chain: Chain,
    assets: crate::assets::Module,
    utxos: UTXOStorage,
    txs: Table<H256, TxRecord>,
    pending: Table<Address, Vec<DepositCache>>,
    bindings: Table<Address, Binding>,
    proposal: Option<WithdrawalProposal>,
    withdrawal_disabled: bool,
    trustee: Option<Address>,
    applications: Table<u32, Application>,
    network: Network,
    events: Vec<Event>,
}

impl View for Module {
    type V = BridgeState;

    closed spec fn view(&self) -> BridgeState {
        BridgeState {
            chain: self.chain@,
            ledger: self.assets@,
            utxos: self.utxos@,
            txs: self.txs@.map_values(|r: TxRecord| r@),
            pending: self.pending@.map_values(|v: Vec<DepositCache>| v@),
            bindings: self.bindings@.map_values(|b: Binding| b@),
            proposal: match self.proposal {
                Some(p) => Some(p@),
                None => None,
            },
            withdrawal_disabled: self.withdrawal_disabled,
            trustee: self.trustee,
            applications: self.applications@.map_values(|a: Application| a@),
            network: self.network,
            events: events_view(self.events@),
        }
    }
}

impl BridgeState {
    /// Verdict on an application for a withdrawal: no fault is marked, and what is applied
    /// for can be set aside from the free balance of the applicant.
    pub open spec fn application_verdict(self, application: ApplicationView) -> Result<(), &'static str> {
        if self.withdrawal_disabled {
            Err("withdrawal is disabled")
        } else {
            match self.ledger.move_verdict(
                btc(),
                application.applicant,
                AssetType::Free,
                application.applicant,
                AssetType::ReservedWithdrawal,
                application.balance,
                true,
            ) {
                Ok(()) => Ok(()),
                Err(e) => Err(e.spec_info()),
            }
        }
    }

    /// The state after an application for a withdrawal was taken in.
    pub open spec fn applied(self, application: ApplicationView) -> BridgeState {
        BridgeState {
            ledger: self.ledger.moved(
                btc(),
                application.applicant,
                AssetType::Free,
                application.applicant,
                AssetType::ReservedWithdrawal,
                application.balance,
            ),
            applications: self.applications.insert(application.id, application),
            ..self
        }
    }

    /// The account that deposits from `address` belong to.
    pub open spec fn bound_account(self, address: Address) -> Option<AccountId> {
        if self.bindings.dom().contains(address) {
            Some(self.bindings[address].0)
        } else {
            None
        }
    }

    /// Deposits from `address` that wait for their account.
    pub open spec fn pending_of(self, address: Address) -> Seq<DepositCache> {
        if self.pending.dom().contains(address) {
            self.pending[address]
        } else {
            Seq::empty()
        }
    }

    /// The state after an attempt to credit `balance` to `who`.
    pub open spec fn credited(self, who: AccountId, balance: u64) -> BridgeState {
        BridgeState { ledger: self.ledger.issue_attempt(btc(), who, balance), ..self }
    }

    /// The state with `event` added to what happened.
    pub open spec fn with_event(self, event: EventView) -> BridgeState {
        BridgeState { events: self.events.push(event), ..self }
    }

    /// The state after an attempt to credit each of `caches`, which waited at `address`, to
    /// `who`, one after the other.
    pub open spec fn credited_all(self, address: Address, who: AccountId, caches: Seq<DepositCache>) -> BridgeState
        decreases caches.len(),
    {
        if caches.len() == 0 {
            self
        } else {
            self.credited_all(address, who, caches.drop_last()).credited(
                who,
                caches.last().balance,
            ).with_event(EventView::DepositPending(who, caches.last().balance, address))
        }
    }

    /// The state after the deposits that waited at `address` were credited to `who`.
    pub open spec fn pending_flushed(self, address: Address, who: AccountId) -> BridgeState {
        if self.pending.dom().contains(address) {
            BridgeState {
                pending: self.pending.remove(address),
                ..self.credited_all(address, who, self.pending[address])
            }
        } else {
            self
        }
    }

    /// The state with a deposit put to wait at `address`, unless that very deposit waits
    /// there already.
    pub open spec fn pending_added(self, address: Address, txid: H256, balance: u64) -> BridgeState {
        let cache = DepositCache { txid, balance };
        BridgeState {
            pending: self.pending.insert(
                address,
                if self.pending_of(address).contains(cache) {
                    self.pending_of(address)
                } else {
                    self.pending_of(address).push(cache)
                },
            ),
            ..self
        }
    }

    /// The state with deposits from `address` bound to `who`.
    pub open spec fn bound(self, address: Address, who: AccountId, channel: Seq<u8>) -> BridgeState {
        BridgeState { bindings: self.bindings.insert(address, (who, channel)), ..self }
    }
}

impl Module {
    /// Well-formedness: the chain and the balance store are well-formed, and every
    /// application is recorded under its own number.
    pub closed spec fn wf(&self) -> bool {
        &&& self.chain.wf()
        &&& self.assets.wf()
        &&& self.txs.wf()
        &&& self.pending.wf()
        &&& self.bindings.wf()
        &&& self.applications.wf()
        &&& forall|id: u32|
            self.applications@.dom().contains(id) ==> (#[trigger] self.applications@[id]).id == id
    }

    /// The header chain of the bridge.
    pub fn chain(&self) -> (chain: &Chain)
        requires
            self.wf(),
        ensures
            chain.wf(),
            chain@ == self@.chain,
    {
        &self.chain
    }

    /// The balance store of the bridge.
    pub fn assets(&self) -> (assets: &crate::assets::Module)
        requires
            self.wf(),
        ensures
            assets.wf(),
            assets@ == self@.ledger,
    {
        &self.assets
    }

    /// The trustees' outputs.
    pub fn utxos(&self) -> (utxos: &UTXOStorage)
        ensures
            utxos@ == self@.utxos,
    {
        &self.utxos
    }

    /// A bridge over the chain `chain` and the balance store `assets`, with no trustees, no
    /// outputs and no transactions yet.
    pub fn new(chain: Chain, assets: crate::assets::Module, network: Network) -> (m: Module)
        requires
            chain.wf(),
            assets.wf(),
        ensures
            m.wf(),
            m@ == (BridgeState {
                chain: chain@,
                ledger: assets@,
                utxos: Seq::empty(),
                txs: Map::empty(),
                pending: Map::empty(),
                bindings: Map::empty(),
                proposal: None,
                withdrawal_disabled: false,
                trustee: None,
                applications: Map::empty(),
                network,
                events: Seq::empty(),
            }),
    {
        let m = Module {
            chain,
            assets,
            utxos: UTXOStorage::new(),
            txs: Table::new(),
            pending: Table::new(),
            bindings: Table::new(),
            proposal: None,
            withdrawal_disabled: false,
            trustee: None,
            applications: Table::new(),
            network,
            events: Vec::new(),
        };
        proof {
            assert(m@.events =~= Seq::empty());
            assert(m@.txs =~= Map::empty());
            assert(m@.pending =~= Map::empty());
            assert(m@.bindings =~= Map::empty());
            assert(m@.applications =~= Map::empty());
        }
        m
    }

    /// Adds `event` to what happened.
    fn deposit_event(&mut self, event: Event)
        requires
            old(self).wf(),
        ensures
            final(self).wf(),
            final(self)@ == old(self)@.with_event(event@),
    {
        let ghost before = self.events@;
        self.events.push(event);
        assert(events_view(self.events@) =~= events_view(before).push(event@));
    }

    /// Hands out what happened since this was last asked for, oldest first.
    pub fn take_events(&mut self) -> (events: Vec<Event>)
        requires
            old(self).wf(),
        ensures
            final(self).wf(),
            events_view(events@) == old(self)@.events,
            final(self)@ == (BridgeState { events: Seq::empty(), ..old(self)@ }),
    {
        let mut events: Vec<Event> = Vec::new();
        std::mem::swap(&mut events, &mut self.events);
        assert(events_view(self.events@) =~= Seq::<EventView>::empty());
        events
    }

    /// Sets the address of the trustees.
    pub fn set_trustee_address(&mut self, address: Address)
        requires
            old(self).wf(),
        ensures
            final(self).wf(),
            final(self)@ == (BridgeState { trustee: Some(address), ..old(self)@ }),
    {
        self.trustee = Some(address);
    }

    /// Address of the trustees.
    pub fn trustee_address(&self) -> (a: Option<Address>)
        ensures
            a == self@.trustee,
    {
        self.trustee
    }

    /// Whether a fault was met that an operator has to look into.
    pub fn is_withdrawal_disabled(&self) -> (d: bool)
        ensures
            d == self@.withdrawal_disabled,
    {
        self.withdrawal_disabled
    }

    /// Clears the mark of a fault, once an operator has looked into it.
    pub fn enable_withdrawal(&mut self)
        requires
            old(self).wf(),
        ensures
            final(self).wf(),
            final(self)@ == (BridgeState { withdrawal_disabled: false, ..old(self)@ }),
    {
        self.withdrawal_disabled = false;
    }

    /// Takes in an application for a withdrawal: what is applied for is set aside from the
    /// free balance of the applicant, and the application is recorded under its number.
    /// Nothing is recorded where the balance cannot be set aside, and no application is taken
    /// in while a fault is marked.
    pub fn apply_withdrawal(&mut self, application: Application) -> (r: Result<(), &'static str>)
        requires
            old(self).wf(),
        ensures
            final(self).wf(),
            r == old(self)@.application_verdict(application@),
            r.is_ok() ==> final(self)@ == old(self)@.applied(application@),
            r.is_err() ==> final(self)@ == old(self)@,
    {
        if self.withdrawal_disabled {
            return Err("withdrawal is disabled");
        }
        let token = btc_token();
        let who = application.applicant;
        match self.assets.move_balance(
            &token,
            &who,
            AssetType::Free,
            &who,
            AssetType::ReservedWithdrawal,
            application.balance,
        ) {
            Ok(()) => {},
            Err(e) => {
                return Err(e.info());
            },
        }
        let ghost before = *self;
        let id = application.id;
        let ghost av = application@;
        self.applications.insert(&id, application);
        assert(self@.applications =~= before@.applications.insert(id, av));
        Ok(())
    }

    /// The applications for withdrawal, in the order in which they were made.
    pub closed spec fn application_list(&self) -> Seq<ApplicationView> {
        self.applications.values().map_values(|a: Application| a@)
    }

    /// The applications for withdrawal, in the order in which they were made.
    pub fn withdrawal_applications(&self) -> (list: Vec<Application>)
        requires
            self.wf(),
        ensures
            list@.map_values(|a: Application| a@) == self.application_list(),
            forall|i: int|
                0 <= i < list@.len() ==> self@.applications.dom().contains((#[trigger] list@[i]).id)
                    && self@.applications[list@[i].id] == list@[i]@,
    {
        let ghost name = |a: Application| a@;
        let mut out: Vec<Application> = Vec::new();
        let n = self.applications.len();
        let mut i: usize = 0;
        assert(out@.map_values(name) =~= self.application_list().take(0));
        while i < n
            invariant
                self.wf(),
                i <= n,
                n == self.applications.spec_len(),
                n == self.application_list().len(),
                name == |a: Application| a@,
                out@.map_values(name) == self.application_list().take(i as int),
                forall|j: int|
                    0 <= j < out@.len() ==> self@.applications.dom().contains((#[trigger] out@[j]).id)
                        && self@.applications[out@[j].id] == out@[j]@,
            decreases n - i,
        {
            let application = self.applications.value_at(i).duplicate();
            proof {
                self.applications.lemma_position(i as int);
            }
            let ghost before = out@;
            out.push(application);
            assert(out@.map_values(name) =~= before.map_values(name).push(
                self.application_list()[i as int],
            ));
            assert(out@.map_values(name) =~= self.application_list().take(i + 1));
            i += 1;
        }
        assert(self.application_list().take(n as int) =~= self.application_list());
        out
    }

    /// The withdrawal that the trustees are working on.
    pub fn withdrawal_proposal(&self) -> (p: Option<WithdrawalProposal>)
        ensures
            match p {
                Some(p) => self@.proposal == Some(p@),
                None => self@.proposal is None,
            },
    {
        match &self.proposal {
            Some(p) => Some(p.duplicate()),
            None => None,
        }
    }

    /// What was relayed of the transaction `txid`.
    pub fn tx_for(&self, txid: &H256) -> (info: Option<TxInfo>)
        requires
            self.wf(),
        ensures
            match info {
                Some(i) => self@.txs.dom().contains(*txid) && self@.txs[*txid].info == i@,
                None => !self@.txs.dom().contains(*txid),
            },
    {
        match self.txs.get(txid) {
            Some(r) => Some(r.info.duplicate()),
            None => None,
        }
    }

    /// Deposits from `address` that wait for their account.
    pub fn pending_deposit(&self, address: &Address) -> (list: Option<Vec<DepositCache>>)
        requires
            self.wf(),
        ensures
            match list {
                Some(l) => self@.pending.dom().contains(*address) && self@.pending[*address] == l@,
                None => !self@.pending.dom().contains(*address),
            },
    {
        match self.pending.get(address) {
            Some(l) => Some(clone_caches(l)),
            None => None,
        }
    }

    /// The account that deposits from `address` belong to.
    pub fn address_map(&self, address: &Address) -> (who: Option<AccountId>)
        requires
            self.wf(),
        ensures
            who == self@.bound_account(*address),
    {
        match self.bindings.get(address) {
            Some(b) => Some(b.who),
            None => None,
        }
    }

    /// Tries to credit `balance` to `who`. A refusal of the balance store is left for an
    /// operator to mend: the deposit is then not credited.
    pub fn deposit_token(&mut self, who: &AccountId, balance: u64)
        requires
            old(self).wf(),
        ensures
            final(self).wf(),
            final(self)@ == old(self)@.credited(*who, balance),
    {
        let token = btc_token();
        let _ = self.assets.issue(&token, who, balance);
    }

    /// Puts a deposit to wait at `input_address`.
    pub fn insert_pending_deposit(&mut self, input_address: &Address, txid: &H256, balance: u64)
        requires
            old(self).wf(),
        ensures
            final(self).wf(),
            final(self)@ == old(self)@.pending_added(*input_address, *txid, balance),
    {
        let cache = DepositCache { txid: *txid, balance };
        let ghost before = *self;
        let mut list = match self.pending.get(input_address) {
            Some(list) => clone_caches(list),
            None => Vec::new(),
        };
        let mut found = false;
        let mut i: usize = 0;
        while i < list.len()
            invariant
                i <= list.len(),
                found == list@.take(i as int).contains(cache),
            decreases list.len() - i,
        {
            let ghost done = list@.take(i as int);
            let ghost next = list@.take(i + 1);
            proof {
                if done.contains(cache) {
                    let j = choose|j: int| 0 <= j < done.len() && done[j] == cache;
                    assert(next[j] == cache);
                }
                if next.contains(cache) && list@[i as int] != cache {
                    let j = choose|j: int| 0 <= j < next.len() && next[j] == cache;
                    assert(done[j] == cache);
                }
                if list@[i as int] == cache {
                    assert(next[i as int] == cache);
                }
            }
            if list[i] == cache {
                found = true;
            }
            i += 1;
        }
        assert(list@.take(list.len() as int) =~= list@);
        if !found {
            list.push(cache);
        }
        self.pending.insert(input_address, list);
        assert(self@.pending =~= before@.pending_added(*input_address, *txid, balance).pending);
    }

    /// Credits the deposits that waited at `input_address` to `who`.
    pub fn remove_pending_deposit(&mut self, input_address: &Address, who: &AccountId)
        requires
            old(self).wf(),
        ensures
            final(self).wf(),
            final(self)@ == old(self)@.pending_flushed(*input_address, *who),
    {
        let ghost before = *self;
        let record = match self.pending.remove(input_address) {
            Some(record) => record,
            None => {
                assert(self@.pending =~= before@.pending);
                return ;
            },
        };
        let ghost removed = self@;
        assert(removed.pending =~= before@.pending.remove(*input_address));
        let mut i: usize = 0;
        while i < record.len()
            invariant
                self.wf(),
                i <= record.len(),
                self@ == removed.credited_all(*input_address, *who, record@.take(i as int)),
            decreases record.len() - i,
        {
            proof {
                assert(record@.take(i + 1).drop_last() =~= record@.take(i as int));
                assert(record@.take(i + 1).last() == record@[i as int]);
            }
            self.deposit_token(who, record[i].balance);
            self.deposit_event(Event::DepositPending(*who, record[i].balance, *input_address));
            i += 1;
        }
        proof {
            assert(record@.take(record.len() as int) =~= record@);
            assert(record@ == before@.pending[*input_address]);
            lemma_credited_all_frame(before@, removed, *input_address, *who, record@);
            lemma_credited_all_frame(removed, before@, *input_address, *who, record@);
        }
    }

    /// Binds deposits from `input_addr` to `who`, whatever they were bound to.
    pub fn update_binding(&mut self, who: AccountId, channel_name: Vec<u8>, input_addr: Address)
        requires
            old(self).wf(),
        ensures
            final(self).wf(),
            final(self)@ == old(self)@.bound(input_addr, who, channel_name@),
    {
        let ghost before = *self;
        self.bindings.insert(&input_addr, Binding { who, channel: channel_name });
        assert(self@.bindings =~= before@.bound(input_addr, who, channel_name@).bindings);
    }
}

/// Crediting changes the balance store and what happened, and nothing else.
pub proof fn lemma_credited_all_frame(
    a: BridgeState,
    b: BridgeState,
    address: Address,
    who: AccountId,
    caches: Seq<DepositCache>,
)
    requires
        a.ledger == b.ledger,
        a.events == b.events,
    ensures
        a.credited_all(address, who, caches).ledger == b.credited_all(address, who, caches).ledger,
        a.credited_all(address, who, caches).events == b.credited_all(address, who, caches).events,
        b.credited_all(address, who, caches) == (BridgeState {
            ledger: b.credited_all(address, who, caches).ledger,
            events: b.credited_all(address, who, caches).events,
            ..b
        }),
    decreases caches.len(),
{
    if caches.len() > 0 {
        lemma_credited_all_frame(a, b, address, who, caches.drop_last());
    }
}


/// The outputs that the inputs of `tx` spend.
pub open spec fn out_points(tx: TransactionView) -> Seq<OutPoint> {
    tx.inputs.map_values(|i: crate::bitcoin::InputView| i.previous_output)
}

/// Of the first `n` outputs of `tx`, those that pay to `hash`, as unspent outputs of the
/// trustees.
pub open spec fn new_utxos_in(tx: TransactionView, hash: H160, n: nat) -> Seq<UTXO>
    decreases n,
{
    if n == 0 || n > tx.outputs.len() {
        Seq::empty()
    } else {
        new_utxos_in(tx, hash, (n - 1) as nat) + if tx.outputs[n - 1].pays_to(hash) {
            seq![
                UTXO {
                    txid: tx.hash,
                    index: (n - 1) as u32,
                    balance: tx.outputs[n - 1].value,
                    is_spent: false,
                },
            ]
        } else {
            Seq::empty()
        }
    }
}

/// How many outputs of a transaction can be named by an out point.
pub open spec fn nameable_outputs(tx: TransactionView) -> nat {
    if tx.outputs.len() > 0xffff_ffff {
        0xffff_ffff
    } else {
        tx.outputs.len()
    }
}

/// The outputs of `tx` that pay to `hash`, as unspent outputs of the trustees.
pub open spec fn new_utxos(tx: TransactionView, hash: H160) -> Seq<UTXO> {
    new_utxos_in(tx, hash, nameable_outputs(tx))
}

/// The trustees' outputs once the outputs of `tx` that pay to `hash` are added: they are
/// added unless they hold nothing.
pub open spec fn with_outputs_of(utxos: Seq<UTXO>, tx: TransactionView, hash: H160) -> Seq<UTXO> {
    if total_balance(new_utxos(tx, hash)) > 0 {
        utxos + new_utxos(tx, hash)
    } else {
        utxos
    }
}

/// The outputs that the inputs of `tx` spend.
pub fn previous_outputs(tx: &Transaction) -> (r: Vec<OutPoint>)
    ensures
        r@ == out_points(tx@),
{
    let mut out: Vec<OutPoint> = Vec::new();
    let mut i: usize = 0;
    assert(tx@.inputs.len() == tx.inputs@.len());
    assert(out@ =~= out_points(tx@).take(0));
    while i < tx.inputs.len()
        invariant
            i <= tx.inputs.len(),
            tx@.inputs.len() == tx.inputs@.len(),
            out@ == out_points(tx@).take(i as int),
        decreases tx.inputs.len() - i,
    {
        assert(tx@.inputs[i as int] == tx.inputs@[i as int]@);
        out.push(tx.inputs[i].previous_output);
        assert(out@ =~= out_points(tx@).take(i + 1));
        i += 1;
    }
    assert(out_points(tx@).take(tx.inputs.len() as int) =~= out_points(tx@));
    out
}

/// The outputs of `tx` that pay to `receive_address`, as unspent outputs of the trustees.
pub fn outputs_for(tx: &Transaction, receive_address: &Address) -> (r: (Vec<UTXO>, u128))
    ensures
        r.0@ == new_utxos(tx@, receive_address.hash),
        r.1 == total_balance(r.0@),
{
    let mut out: Vec<UTXO> = Vec::new();
    let mut total: u128 = 0;
    let n: usize = if tx.outputs.len() > 0xffff_ffff {
        0xffff_ffff
    } else {
        tx.outputs.len()
    };
    let mut j: usize = 0;
    assert(tx@.outputs.len() == tx.outputs@.len());
    while j < n
        invariant
            j <= n <= tx.outputs.len(),
            n <= 0xffff_ffff,
            tx@.outputs.len() == tx.outputs@.len(),
            out@ == new_utxos_in(tx@, receive_address.hash, j as nat),
            total == total_balance(out@),
            total <= j * 0xffff_ffff_ffff_ffff,
        decreases n - j,
    {
        assert(tx@.outputs[j as int] == tx.outputs@[j as int]@);
        proof {
            assert((j + 1) * 0xffff_ffff_ffff_ffff == j * 0xffff_ffff_ffff_ffff
                + 0xffff_ffff_ffff_ffff) by (nonlinear_arith);
            assert(j * 0xffff_ffff_ffff_ffff <= 0xffff_ffff * 0xffff_ffff_ffff_ffff)
                by (nonlinear_arith)
                requires
                    j <= 0xffff_ffff,
            ;
        }
        if tx.outputs[j].is_key(receive_address) {
            let ghost before = out@;
            out.push(
                UTXO {
                    txid: tx.hash,
                    index: j as u32,
                    balance: tx.outputs[j].value,
                    is_spent: false,
                },
            );
            assert(out@.drop_last() =~= before);
            total = total + tx.outputs[j].value as u128;
        } else {
            assert(out@ + Seq::<UTXO>::empty() =~= out@);
        }
        j += 1;
    }
    (out, total)
}

/// Adds the outputs of `tx` that pay to `receive_address` to the trustees' outputs, unless
/// they hold nothing. Hands back those outputs: each is an output of `tx` that pays to the
/// address, none carries data, and together they hold what `tx` pays to the address.
pub fn handle_output(utxos: &mut UTXOStorage, tx: &Transaction, receive_address: &Address) -> (new_utxos:
    Vec<UTXO>)
    ensures
        new_utxos@ == crate::bridge::new_utxos(tx@, receive_address.hash),
        final(utxos)@ == with_outputs_of(old(utxos)@, tx@, receive_address.hash),
        forall|i: int|
            0 <= i < new_utxos@.len() ==> is_output_of(
                #[trigger] new_utxos@[i],
                tx@,
                receive_address.hash,
            ),
        tx@.outputs.len() <= 0xffff_ffff ==> total_balance(new_utxos@) == crate::tx::deposit_sum(
            tx@.outputs,
            receive_address.hash,
        ),
{
    proof {
        lemma_new_utxos_hold_the_deposit(tx@, receive_address.hash, nameable_outputs(tx@));
        if tx@.outputs.len() <= 0xffff_ffff {
            assert(tx@.outputs.take(tx@.outputs.len() as int) =~= tx@.outputs);
        }
    }
    let (found, total) = outputs_for(tx, receive_address);
    if total > 0 {
        let mut copy: Vec<UTXO> = Vec::new();
        let mut i: usize = 0;
        while i < found.len()
            invariant
                i <= found.len(),
                copy@ == found@.take(i as int),
            decreases found.len() - i,
        {
            copy.push(found[i]);
            assert(copy@ =~= found@.take(i + 1));
            i += 1;
        }
        assert(found@.take(found.len() as int) =~= found@);
        utxos.add(copy);
    }
    found
}

/// What a withdrawal takes out of the trustees' outputs: what its inputs spend of them, less
/// what it pays back to the trustees.
pub open spec fn withdrawn(utxos: Seq<UTXO>, tx: TransactionView, hash: H160) -> int {
    let spent = marked_balance(utxos, out_points(tx), true);
    let back = total_balance(new_utxos(tx, hash));
    if spent >= back {
        spent - back
    } else {
        0
    }
}

/// Marks the trustees' outputs that `tx` spends as spent. Gives what the withdrawal takes
/// out: what it spends, less what it pays back to `receive_address`.
pub fn handle_input(utxos: &mut UTXOStorage, tx: &Transaction, receive_address: &Address) -> (update_balance:
    u128)
    ensures
        final(utxos)@ == marked(old(utxos)@, out_points(tx@), true),
        update_balance == withdrawn(old(utxos)@, tx@, receive_address.hash),
{
    let out_point_set = previous_outputs(tx);
    let spent = utxos.update_from_outpoint(out_point_set, true);
    let (_, back) = outputs_for(tx, receive_address);
    if spent >= back {
        spent - back
    } else {
        0
    }
}

impl BridgeState {
    /// The address hash of the trustees.
    pub open spec fn trustee_hash(self) -> Option<H160> {
        match self.trustee {
            Some(a) => Some(a.hash),
            None => None,
        }
    }

    /// The state after the application `id` was paid out: what was set aside for it is
    /// destroyed, and the application is gone.
    pub open spec fn finished(self, id: u32) -> BridgeState {
        if self.applications.dom().contains(id) {
            BridgeState {
                ledger: self.ledger.destroy_attempt(
                    btc(),
                    self.applications[id].applicant,
                    self.applications[id].balance,
                ),
                applications: self.applications.remove(id),
                ..self
            }
        } else {
            self
        }
    }

    /// The state after the applications `ids` were paid out by the transaction `txid`, one
    /// after the other.
    pub open spec fn finished_all(self, ids: Seq<u32>, txid: H256) -> BridgeState
        decreases ids.len(),
    {
        if ids.len() == 0 {
            self
        } else {
            self.finished_all(ids.drop_last(), txid).finished(ids.last()).with_event(
                EventView::Withdrawal(ids.last(), txid),
            )
        }
    }

    /// The account that a deposit of `info` belongs to: the one it names, or else the one
    /// that its address is bound to.
    pub open spec fn deposit_account(self, info: TxInfoView) -> Option<AccountId> {
        match deposit_outputs(info.raw_tx, self.trustee_hash()) {
            Ok(parsed) => match parsed.account_info {
                Some((who, _)) => Some(who),
                None => self.bound_account(info.input_address),
            },
            Err(_) => None,
        }
    }

    /// Verdict on applying the deposit `info`.
    pub open spec fn deposit_result(self, info: TxInfoView) -> Result<(), &'static str> {
        match deposit_outputs(info.raw_tx, self.trustee_hash()) {
            Ok(_) => Ok(()),
            Err(e) => Err(e),
        }
    }

    /// The state after the deposit `info` with the identifier `txid` was applied. Where the
    /// deposit names an account, what waited at its address is credited to that account and
    /// the address is bound to it. What the deposit pays is credited to its account, or put
    /// to wait where it has none. Outputs of the trustees that the deposit spends are marked,
    /// and the outputs that pay the trustees become theirs.
    pub open spec fn after_deposit(self, txid: H256, info: TxInfoView) -> BridgeState {
        match deposit_outputs(info.raw_tx, self.trustee_hash()) {
            Err(_) => self,
            Ok(parsed) => {
                let named = match parsed.account_info {
                    Some((who, channel)) => self.pending_flushed(info.input_address, who).bound(
                        info.input_address,
                        who,
                        channel,
                    ),
                    None => self,
                };
                let paid = if parsed.deposit_balance > 0 {
                    match self.deposit_account(info) {
                        Some(who) => named.credited(who, parsed.deposit_balance),
                        None => named.pending_added(
                            info.input_address,
                            txid,
                            parsed.deposit_balance,
                        ),
                    }
                } else {
                    named
                };
                (BridgeState {
                    utxos: with_outputs_of(
                        marked(paid.utxos, out_points(info.raw_tx), true),
                        info.raw_tx,
                        self.trustee_hash()->0,
                    ),
                    ..paid
                }).with_event(
                    EventView::Deposit(
                        match self.deposit_account(info) {
                            Some(who) => who,
                            None => 0,
                        },
                        parsed.deposit_balance,
                        parsed.original,
                        info.input_address,
                        txid,
                    ),
                )
            },
        }
    }

    /// Verdict on applying the withdrawal `info`: it must be the transaction of the proposal
    /// but for its signatures. A withdrawal that nothing was proposed for is taken note of
    /// and not refused.
    pub open spec fn withdrawal_result(self, info: TxInfoView) -> Result<(), &'static str> {
        match self.proposal {
            Some(p) => identical_verdict(info.raw_tx, p.tx),
            None => Ok(()),
        }
    }

    /// The state after the withdrawal `info` was applied. Where it is the proposed one, the
    /// applications of the proposal are paid out, the proposal is gone, and the outputs that
    /// the withdrawal spends are marked; what it pays back to the trustees becomes theirs.
    /// Otherwise a fault is marked, and the proposal stays.
    pub open spec fn after_withdrawal(self, txid: H256, info: TxInfoView) -> BridgeState {
        match self.proposal {
            Some(p) => if identical_verdict(info.raw_tx, p.tx).is_ok() {
                let paid = self.finished_all(p.withdrawal_id_list, txid);
                let spent = marked(paid.utxos, out_points(info.raw_tx), true);
                BridgeState {
                    proposal: None,
                    utxos: match self.trustee {
                        Some(a) => with_outputs_of(spent, info.raw_tx, a.hash),
                        None => spent,
                    },
                    ..paid
                }
            } else {
                (BridgeState { withdrawal_disabled: true, ..self }).with_event(
                    EventView::WithdrawalFatalErr(txid, p.tx.hash),
                )
            },
            None => (BridgeState { withdrawal_disabled: true, ..self }).with_event(
                EventView::WithdrawalFatalErr(txid, H256::spec_zero()),
            ),
        }
    }

    /// Verdict on applying the transaction `info`.
    pub open spec fn handle_result(self, info: TxInfoView) -> Result<(), &'static str> {
        match info.tx_type {
            TxType::Withdrawal => self.withdrawal_result(info),
            TxType::Deposit | TxType::TrusteeBind => self.deposit_result(info),
            TxType::Unknown => Ok(()),
        }
    }

    /// The state after the transaction `info` with the identifier `txid` was applied.
    pub open spec fn after_handle(self, txid: H256, info: TxInfoView) -> BridgeState {
        match info.tx_type {
            TxType::Withdrawal => self.after_withdrawal(txid, info),
            TxType::Deposit | TxType::TrusteeBind => self.after_deposit(txid, info),
            TxType::Unknown => self,
        }
    }

    /// Verdict on applying the relayed transaction `txid`. A transaction that was applied
    /// before is not applied again, and that is no error.
    pub open spec fn tx_result(self, txid: H256) -> Result<(), &'static str> {
        if !self.txs.dom().contains(txid) {
            Err("not find this txinfo for this txid")
        } else if self.txs[txid].handled {
            Ok(())
        } else {
            self.handle_result(self.txs[txid].info)
        }
    }

    /// The state after an attempt to apply the relayed transaction `txid`. A transaction is
    /// marked once it is applied, and a marked transaction changes nothing.
    pub open spec fn after_tx(self, txid: H256) -> BridgeState {
        if !self.txs.dom().contains(txid) || self.txs[txid].handled {
            self
        } else {
            let applied = self.after_handle(txid, self.txs[txid].info);
            if self.handle_result(self.txs[txid].info).is_ok() {
                BridgeState {
                    txs: applied.txs.insert(
                        txid,
                        TxRecordView { handled: true, ..self.txs[txid] },
                    ),
                    ..applied
                }
            } else {
                applied
            }
        }
    }

    /// The state after an attempt to apply each of the transactions `txids`, one after the
    /// other.
    pub open spec fn after_txs(self, txids: Seq<H256>) -> BridgeState
        decreases txids.len(),
    {
        if txids.len() == 0 {
            self
        } else {
            self.after_txs(txids.drop_last()).after_tx(txids.last())
        }
    }
}

impl BridgeState {
    /// Paying out applications changes the balance store, the applications and what
    /// happened, and nothing else.
    pub proof fn lemma_finished_all_frame(self, ids: Seq<u32>, txid: H256)
        ensures
            self.finished_all(ids, txid) == (BridgeState {
                ledger: self.finished_all(ids, txid).ledger,
                applications: self.finished_all(ids, txid).applications,
                events: self.finished_all(ids, txid).events,
                ..self
            }),
        decreases ids.len(),
    {
        if ids.len() > 0 {
            self.lemma_finished_all_frame(ids.drop_last(), txid);
        }
    }
}

/// Applies one relayed transaction.
#[derive(Debug)]
pub struct TxHandler {
    pub tx_hash: H256,
    pub tx_info: TxInfo,
}

impl TxHandler {
    /// A handler for the relayed transaction `txid`.
    pub fn new(module: &Module, txid: &H256) -> (r: Result<TxHandler, &'static str>)
        requires
            module.wf(),
        ensures
            match r {
                Ok(h) => module@.txs.dom().contains(*txid) && h.tx_hash == *txid && h.tx_info@
                    == module@.txs[*txid].info,
                Err(e) => !module@.txs.dom().contains(*txid) && e
                    == "not find this txinfo for this txid",
            },
    {
        match module.tx_for(txid) {
            Some(tx_info) => Ok(TxHandler { tx_hash: *txid, tx_info }),
            None => Err("not find this txinfo for this txid"),
        }
    }

    /// Applies the transaction to `module`, by what it does.
    pub fn handle(&self, module: &mut Module) -> (r: Result<(), &'static str>)
        requires
            old(module).wf(),
        ensures
            final(module).wf(),
            r == old(module)@.handle_result(self.tx_info@),
            final(module)@ == old(module)@.after_handle(self.tx_hash, self.tx_info@),
    {
        match self.tx_info.tx_type {
            TxType::Withdrawal => self.withdraw(module),
            TxType::Deposit => self.deposit(module),
            TxType::TrusteeBind => self.deposit(module),
            TxType::Unknown => Ok(()),
        }
    }

    /// Applies the transaction as a withdrawal.
    pub fn withdraw(&self, module: &mut Module) -> (r: Result<(), &'static str>)
        requires
            old(module).wf(),
        ensures
            final(module).wf(),
            r == old(module)@.withdrawal_result(self.tx_info@),
            final(module)@ == old(module)@.after_withdrawal(self.tx_hash, self.tx_info@),
    {
        let proposal = match module.withdrawal_proposal() {
            Some(p) => p,
            None => {
                module.withdrawal_disabled = true;
                module.deposit_event(Event::WithdrawalFatalErr(self.tx_hash, H256::zero()));
                return Ok(());
            },
        };
        match ensure_identical(&self.tx_info.raw_tx, &proposal.tx) {
            Ok(()) => {},
            Err(e) => {
                module.withdrawal_disabled = true;
                module.deposit_event(Event::WithdrawalFatalErr(self.tx_hash, proposal.tx.hash));
                return Err(e);
            },
        }
        let ghost before = module@;
        let ids = &proposal.withdrawal_id_list;
        let mut i: usize = 0;
        while i < ids.len()
            invariant
                module.wf(),
                i <= ids.len(),
                module@ == before.finished_all(ids@.take(i as int), self.tx_hash),
            decreases ids.len() - i,
        {
            proof {
                assert(ids@.take(i + 1).drop_last() =~= ids@.take(i as int));
                assert(ids@.take(i + 1).last() == ids@[i as int]);
            }
            module.withdrawal_finish(ids[i]);
            module.deposit_event(Event::Withdrawal(ids[i], self.tx_hash));
            i += 1;
        }
        assert(ids@.take(ids.len() as int) =~= ids@);
        let ghost paid = module@;
        proof {
            before.lemma_finished_all_frame(proposal@.withdrawal_id_list, self.tx_hash);
        }
        module.proposal = None;
        match module.trustee {
            Some(a) => {
                let _ = handle_input(&mut module.utxos, &self.tx_info.raw_tx, &a);
                let _ = handle_output(&mut module.utxos, &self.tx_info.raw_tx, &a);
            },
            None => {
                module.utxos.mark_spent(previous_outputs(&self.tx_info.raw_tx));
            },
        }
        Ok(())
    }

    /// Applies the transaction as a deposit.
    pub fn deposit(&self, module: &mut Module) -> (r: Result<(), &'static str>)
        requires
            old(module).wf(),
        ensures
            final(module).wf(),
            r == old(module)@.deposit_result(self.tx_info@),
            final(module)@ == old(module)@.after_deposit(self.tx_hash, self.tx_info@),
    {
        let input_addr = self.tx_info.input_address;
        let trustee = module.trustee;
        let parsed = match parse_deposit_outputs(&self.tx_info.raw_tx, trustee.as_ref()) {
            Ok(parsed) => parsed,
            Err(e) => {
                return Err(e);
            },
        };
        let ghost before = module@;
        let deposit_balance = parsed.deposit_balance;
        let deposit_account: Option<AccountId> = match parsed.account_info {
            Some((accountid, channel_name)) => {
                module.remove_pending_deposit(&input_addr, &accountid);
                module.update_binding(accountid, channel_name, input_addr);
                Some(accountid)
            },
            None => module.address_map(&input_addr),
        };
        assert(deposit_account == before.deposit_account(self.tx_info@));
        if deposit_balance > 0 {
            match deposit_account {
                Some(accountid) => {
                    module.deposit_token(&accountid, deposit_balance);
                },
                None => {
                    module.insert_pending_deposit(&input_addr, &self.tx_hash, deposit_balance);
                },
            }
        }
        match trustee {
            Some(a) => {
                let _ = handle_input(&mut module.utxos, &self.tx_info.raw_tx, &a);
                let _ = handle_output(&mut module.utxos, &self.tx_info.raw_tx, &a);
            },
            None => {},
        }
        let who = match deposit_account {
            Some(who) => who,
            None => 0,
        };
        module.deposit_event(
            Event::Deposit(who, deposit_balance, parsed.original, input_addr, self.tx_hash),
        );
        Ok(())
    }
}

impl Module {
    /// Pays out the application `id`: what was set aside for it is destroyed, and the
    /// application is gone. A refusal of the balance store is left for an operator to mend.
    pub fn withdrawal_finish(&mut self, id: u32)
        requires
            old(self).wf(),
        ensures
            final(self).wf(),
            final(self)@ == old(self)@.finished(id),
    {
        let ghost before = *self;
        match self.applications.remove(&id) {
            Some(application) => {
                assert(self@.applications =~= before@.applications.remove(id));
                assert(application@ == before@.applications[id]);
                let token = btc_token();
                let _ = self.assets.destroy(&token, &application.applicant, application.balance);
            },
            None => {
                assert(self@.applications =~= before@.applications);
            },
        }
    }

    /// Applies the relayed transaction `txid`, unless it has been applied before.
    pub fn handle_tx(&mut self, txid: &H256) -> (r: Result<(), &'static str>)
        requires
            old(self).wf(),
        ensures
            final(self).wf(),
            r == old(self)@.tx_result(*txid),
            final(self)@ == old(self)@.after_tx(*txid),
    {
        let already = match self.txs.get(txid) {
            Some(record) => record.handled,
            None => {
                return Err("not find this txinfo for this txid");
            },
        };
        if already {
            return Ok(());
        }
        let handler = match TxHandler::new(self, txid) {
            Ok(h) => h,
            Err(e) => {
                return Err(e);
            },
        };
        let ghost before = *self;
        let r = handler.handle(self);
        if r.is_ok() {
            let ghost applied = *self;
            let info = handler.tx_info;
            self.txs.insert(txid, TxRecord { info, handled: true });
            proof {
                assert(self@.txs =~= applied@.txs.insert(
                    *txid,
                    TxRecordView { handled: true, ..before@.txs[*txid] },
                ));
            }
        }
        r
    }

    /// Applies the relayed transactions `txids`, one after the other. A transaction that
    /// cannot be applied is left as it is, for an operator to look into.
    pub fn handle_txs(&mut self, txids: &Vec<H256>)
        requires
            old(self).wf(),
        ensures
            final(self).wf(),
            final(self)@ == old(self)@.after_txs(txids@),
    {
        let mut i: usize = 0;
        while i < txids.len()
            invariant
                self.wf(),
                i <= txids.len(),
                self@ == old(self)@.after_txs(txids@.take(i as int)),
            decreases txids.len() - i,
        {
            proof {
                assert(txids@.take(i + 1).drop_last() =~= txids@.take(i as int));
                assert(txids@.take(i + 1).last() == txids@[i as int]);
            }
            let _ = self.handle_tx(&txids[i]);
            i += 1;
        }
        assert(txids@.take(txids.len() as int) =~= txids@);
    }
}


/// The out points that name `utxos`.
pub open spec fn points_of(utxos: Seq<UTXO>) -> Seq<OutPoint> {
    utxos.map_values(|u: UTXO| OutPoint { hash: u.txid, index: u.index })
}

impl BridgeState {
    /// The state after the transactions of the block `hash` were applied.
    pub open spec fn confirmed_block(self, hash: H256) -> BridgeState {
        if self.chain.headers.dom().contains(hash) {
            self.after_txs(self.chain.headers[hash].txid_list)
        } else {
            self
        }
    }

    /// The state after the transactions of the blocks `hashes` were applied, block by block.
    pub open spec fn confirmed_blocks(self, hashes: Seq<H256>) -> BridgeState
        decreases hashes.len(),
    {
        if hashes.len() == 0 {
            self
        } else {
            self.confirmed_blocks(hashes.drop_last()).confirmed_block(hashes.last())
        }
    }

    /// The state after the headers that lie too far below the header `hash` were dropped,
    /// together with what was relayed of their transactions.
    pub open spec fn pruned_for(self, hash: H256) -> BridgeState {
        if self.chain.headers.dom().contains(hash) {
            match self.chain.prune_height(self.chain.headers[hash]) {
                Some(del) => BridgeState {
                    chain: self.chain.pruned(del),
                    txs: self.txs.remove_keys(
                        self.chain.txs_in(self.chain.listed_at(del)).to_set(),
                    ),
                    ..self
                },
                None => self,
            }
        } else {
            self
        }
    }

    /// The state after `header` was handed in. A known header changes nothing. A header that
    /// is refused changes nothing either, but that a branch which leaves the best chain too
    /// far back marks a fault. Otherwise the header takes its place in the chain, the
    /// transactions of the blocks that became confirmed are applied, and old headers are
    /// dropped.
    pub open spec fn pushed(self, header: BlockHeader) -> BridgeState {
        match self.chain.origin(header) {
            Err(ChainErr::AncientFork) => BridgeState { withdrawal_disabled: true, ..self },
            Err(_) => self,
            Ok(BlockOriginView::KnownBlock) => self,
            Ok(_) => (BridgeState {
                chain: self.chain.inserted(header),
                ..self
            }).confirmed_blocks(self.chain.confirmed_by(header)).pruned_for(header.hash),
        }
    }

    /// Verdict on a relayed transaction. A transaction that was relayed before is accepted.
    pub open spec fn relay_result(self, relay: RelayTxView) -> Result<(), &'static str> {
        match self.trustee {
            None => Err("Should set trustee address info first."),
            Some(trustee) => match relay_verdict(self.chain, relay) {
                Err(e) => Err(e),
                Ok(()) => if self.txs.dom().contains(relay.raw.hash) {
                    Ok(())
                } else if tx_type_of(relay.raw, relay.previous_raw, trustee.hash) == TxType::Unknown {
                    Err("not found our pubkey, may be an unrelated tx")
                } else if spent_address(
                    relay.previous_raw,
                    relay.raw.inputs[0].previous_output,
                    self.network,
                ) is None {
                    Err("Inspect address failed in this transaction")
                } else {
                    Ok(())
                },
            },
        }
    }

    /// The state after a transaction was relayed. An accepted transaction is recorded, unless
    /// it was recorded before, and noted in its block; where that block is confirmed already,
    /// the transaction is applied at once.
    pub open spec fn relayed(self, relay: RelayTxView) -> BridgeState {
        if self.relay_result(relay).is_err() {
            self
        } else {
            let recorded = if self.txs.dom().contains(relay.raw.hash) {
                self
            } else {
                BridgeState {
                    txs: self.txs.insert(
                        relay.raw.hash,
                        TxRecordView {
                            info: TxInfoView {
                                raw_tx: relay.raw,
                                tx_type: tx_type_of(
                                    relay.raw,
                                    relay.previous_raw,
                                    self.trustee->0.hash,
                                ),
                                input_address: spent_address(
                                    relay.previous_raw,
                                    relay.raw.inputs[0].previous_output,
                                    self.network,
                                )->0,
                            },
                            handled: false,
                        },
                    ),
                    ..self
                }
            };
            let noted = BridgeState {
                chain: self.chain.with_tx(relay.block_hash, relay.raw.hash),
                ..recorded
            };
            if self.chain.headers[relay.block_hash].confirmed {
                noted.after_tx(relay.raw.hash)
            } else {
                noted
            }
        }
    }

    /// The state after what the transaction `txid` did to the trustees' outputs was undone:
    /// what it spent is unspent again, and what it paid to the trustees is theirs no more. A
    /// transaction that was not applied has nothing to undo.
    pub open spec fn rolled_back_tx(self, txid: H256) -> BridgeState {
        if self.txs.dom().contains(txid) && self.txs[txid].handled && self.trustee is Some {
            let tx = self.txs[txid].info.raw_tx;
            let made = new_utxos(tx, self.trustee->0.hash);
            match self.txs[txid].info.tx_type {
                TxType::Withdrawal => BridgeState {
                    utxos: marked(marked(self.utxos, out_points(tx), false), points_of(made), true),
                    ..self
                },
                TxType::Deposit | TxType::TrusteeBind => BridgeState {
                    utxos: updated(marked(self.utxos, out_points(tx), false), made, true),
                    ..self
                },
                TxType::Unknown => self,
            }
        } else {
            self
        }
    }

    /// The state after what the transactions `txids` did to the trustees' outputs was
    /// undone, one after the other.
    pub open spec fn rolled_back_txs(self, txids: Seq<H256>) -> BridgeState
        decreases txids.len(),
    {
        if txids.len() == 0 {
            self
        } else {
            self.rolled_back_txs(txids.drop_last()).rolled_back_tx(txids.last())
        }
    }

    /// The state after what the transactions of the block `header` did to the trustees'
    /// outputs was undone.
    pub open spec fn rolled_back(self, header: H256) -> BridgeState {
        if self.trustee is Some && self.chain.headers.dom().contains(header) {
            self.rolled_back_txs(self.chain.headers[header].txid_list)
        } else {
            self
        }
    }
}

impl Module {
    /// Applies the transactions of the block `hash`, which has become confirmed.
    pub fn handle_confirm_block(&mut self, hash: &H256)
        requires
            old(self).wf(),
        ensures
            final(self).wf(),
            final(self)@ == old(self)@.confirmed_block(*hash),
    {
        let txids = match self.chain.block_header_for(hash) {
            Some(info) => clone_hashes(&info.txid_list),
            None => {
                return ;
            },
        };
        self.handle_txs(&txids);
    }

    /// Takes in `header`: it takes its place in the chain, the transactions of the blocks
    /// that thereby became confirmed are applied, and headers that lie too far back are
    /// dropped. Says where the header stood with respect to the chain.
    pub fn push_header(&mut self, header: BlockHeader) -> (r: Result<BlockOrigin, ChainErr>)
        requires
            old(self).wf(),
        ensures
            final(self).wf(),
            final(self)@ == old(self)@.pushed(header),
            match r {
                Ok(origin) => old(self)@.chain.origin(header) == Ok::<BlockOriginView, ChainErr>(
                    origin@,
                ),
                Err(e) => old(self)@.chain.origin(header) == Err::<BlockOriginView, ChainErr>(e),
            },
    {
        let inserted = match self.chain.insert_best_header(header) {
            Ok(inserted) => inserted,
            Err(e) => {
                match e {
                    ChainErr::AncientFork => {
                        self.withdrawal_disabled = true;
                    },
                    _ => {},
                }
                return Err(e);
            },
        };
        match &inserted.origin {
            BlockOrigin::KnownBlock => {
                return Ok(inserted.origin);
            },
            _ => {},
        }
        let ghost placed = self@;
        let blocks = &inserted.confirmed;
        let mut i: usize = 0;
        while i < blocks.len()
            invariant
                self.wf(),
                i <= blocks.len(),
                self@ == placed.confirmed_blocks(blocks@.take(i as int)),
            decreases blocks.len() - i,
        {
            proof {
                assert(blocks@.take(i + 1).drop_last() =~= blocks@.take(i as int));
                assert(blocks@.take(i + 1).last() == blocks@[i as int]);
            }
            self.handle_confirm_block(&blocks[i]);
            i += 1;
        }
        assert(blocks@.take(blocks.len() as int) =~= blocks@);
        self.prune_for(&header.hash);
        Ok(inserted.origin)
    }

    /// Drops the headers that lie too far below the header `hash`, together with what was
    /// relayed of their transactions.
    fn prune_for(&mut self, hash: &H256)
        requires
            old(self).wf(),
        ensures
            final(self).wf(),
            final(self)@ == old(self)@.pruned_for(*hash),
    {
        let info = match self.chain.block_header_for(hash) {
            Some(info) => info.duplicate(),
            None => {
                return ;
            },
        };
        let ghost before = *self;
        let txids = self.chain.remove_unused_headers(&info);
        let ghost chain_after = self.chain;
        let mut i: usize = 0;
        assert(txids@.take(0).to_set() =~= Set::<H256>::empty());
        assert(self.txs@ =~= before.txs@.remove_keys(txids@.take(0).to_set()));
        while i < txids.len()
            invariant
                i <= txids.len(),
                self.txs.wf(),
                self.chain == chain_after,
                self.assets == before.assets,
                self.utxos == before.utxos,
                self.pending == before.pending,
                self.bindings == before.bindings,
                self.proposal == before.proposal,
                self.withdrawal_disabled == before.withdrawal_disabled,
                self.trustee == before.trustee,
                self.applications == before.applications,
                self.network == before.network,
                self.events == before.events,
                self.txs@ == before.txs@.remove_keys(txids@.take(i as int).to_set()),
            decreases txids.len() - i,
        {
            proof {
                lemma_take_to_set(txids@, i as int);
            }
            let _ = self.txs.remove(&txids[i]);
            assert(self.txs@ =~= before.txs@.remove_keys(txids@.take(i + 1).to_set()));
            i += 1;
        }
        proof {
            assert(txids@.take(txids.len() as int) =~= txids@);
            match before@.chain.prune_height(info@) {
                Some(del) => {
                    assert(self@.txs =~= before@.pruned_for(*hash).txs);
                },
                None => {
                    assert(txids@.to_set() =~= Set::<H256>::empty());
                    assert(self@.txs =~= before@.txs);
                },
            }
        }
    }

    /// Takes in a relayed transaction: it is checked, told apart by what it does, recorded
    /// and noted in its block. Nothing is changed where it is refused.
    pub fn push_transaction(&mut self, relay: RelayTx) -> (r: Result<(), &'static str>)
        requires
            old(self).wf(),
        ensures
            final(self).wf(),
            r == old(self)@.relay_result(relay@),
            final(self)@ == old(self)@.relayed(relay@),
    {
        let trustee = match self.trustee {
            Some(t) => t,
            None => {
                return Err("Should set trustee address info first.");
            },
        };
        match validate_transaction(&self.chain, &relay) {
            Ok(()) => {},
            Err(e) => {
                return Err(e);
            },
        }
        let txid = relay.raw.hash;
        let block_hash = relay.block_hash;
        let ghost before = *self;
        let ghost rv = relay@;
        if !self.txs.contains_key(&txid) {
            let tx_type = detect_transaction_type(&relay.raw, &relay.previous_raw, &trustee);
            match tx_type {
                TxType::Unknown => {
                    return Err("not found our pubkey, may be an unrelated tx");
                },
                _ => {},
            }
            assert(relay@.raw.inputs.len() == relay.raw.inputs@.len());
            assert(relay@.raw.inputs[0] == relay.raw.inputs@[0]@);
            let input_address = match inspect_address(
                &relay.previous_raw,
                relay.raw.inputs[0].previous_output,
                self.network,
            ) {
                Some(a) => a,
                None => {
                    return Err("Inspect address failed in this transaction");
                },
            };
            let record = TxRecord {
                info: TxInfo { raw_tx: relay.raw, tx_type, input_address },
                handled: false,
            };
            let ghost record_view = record@;
            self.txs.insert(&txid, record);
            assert(self@.txs =~= before@.txs.insert(txid, record_view));
        }
        let confirmed = match self.chain.block_header_for(&block_hash) {
            Some(info) => info.confirmed,
            None => false,
        };
        let _ = self.chain.attach_tx(&block_hash, txid);
        if confirmed {
            let _ = self.handle_tx(&txid);
        }
        Ok(())
    }

    /// Undoes what the transaction `txid` did to the trustees' outputs.
    fn rollback_one(&mut self, txid: &H256, trustee: &Address)
        requires
            old(self).wf(),
            old(self)@.trustee == Some(*trustee),
        ensures
            final(self).wf(),
            final(self)@ == old(self)@.rolled_back_tx(*txid),
    {
        let (tx, tx_type) = match self.txs.get(txid) {
            Some(record) => {
                if !record.handled {
                    return ;
                }
                (record.info.raw_tx.duplicate(), record.info.tx_type)
            },
            None => {
                return ;
            },
        };
        let (made, _) = outputs_for(&tx, trustee);
        match tx_type {
            TxType::Withdrawal => {
                self.utxos.mark_unspent(previous_outputs(&tx));
                let mut points: Vec<OutPoint> = Vec::new();
                let mut i: usize = 0;
                assert(points@ =~= points_of(made@).take(0));
                while i < made.len()
                    invariant
                        i <= made.len(),
                        points@ == points_of(made@).take(i as int),
                    decreases made.len() - i,
                {
                    points.push(OutPoint { hash: made[i].txid, index: made[i].index });
                    assert(points@ =~= points_of(made@).take(i + 1));
                    i += 1;
                }
                assert(points_of(made@).take(made.len() as int) =~= points_of(made@));
                self.utxos.mark_spent(points);
            },
            TxType::Deposit | TxType::TrusteeBind => {
                self.utxos.mark_unspent(previous_outputs(&tx));
                let _ = self.utxos.update(made, true);
            },
            TxType::Unknown => {},
        }
    }

    /// Undoes what the transactions of the block `header` did to the trustees' outputs.
    /// Balances are not touched.
    pub fn rollback_tx(&mut self, header: &H256) -> (r: Result<(), &'static str>)
        requires
            old(self).wf(),
        ensures
            final(self).wf(),
            r == if old(self)@.trustee is Some {
                Ok::<(), &'static str>(())
            } else {
                Err::<(), &'static str>("should set RECEIVE_ADDRESS first")
            },
            final(self)@ == old(self)@.rolled_back(*header),
    {
        let trustee = match self.trustee {
            Some(t) => t,
            None => {
                return Err("should set RECEIVE_ADDRESS first");
            },
        };
        let txids = match self.chain.block_header_for(header) {
            Some(info) => clone_hashes(&info.txid_list),
            None => {
                return Ok(());
            },
        };
        let mut i: usize = 0;
        while i < txids.len()
            invariant
                self.wf(),
                i <= txids.len(),
                self@.trustee == Some(trustee),
                self@ == old(self)@.rolled_back_txs(txids@.take(i as int)),
            decreases txids.len() - i,
        {
            proof {
                assert(txids@.take(i + 1).drop_last() =~= txids@.take(i as int));
                assert(txids@.take(i + 1).last() == txids@[i as int]);
            }
            self.rollback_one(&txids[i], &trustee);
            i += 1;
        }
        assert(txids@.take(txids.len() as int) =~= txids@);
        Ok(())
    }

    /// Takes the best block off the best chain, after what its transactions did to the
    /// trustees' outputs was undone. Hands back the hash of that block.
    pub fn rollback_best(&mut self) -> (r: Result<H256, ChainErr>)
        requires
            old(self).wf(),
        ensures
            final(self).wf(),
            match r {
                Ok(hash) => old(self)@.trustee is Some && old(self)@.chain.can_decanonize() && hash
                    == old(self)@.chain.best().hash && final(self)@ == (BridgeState {
                    chain: old(self)@.chain.decanonized(),
                    ..old(self)@.rolled_back(hash)
                }),
                Err(e) => final(self)@ == old(self)@ && if old(self)@.trustee is None {
                    e == ChainErr::OtherErr("should set RECEIVE_ADDRESS first")
                } else {
                    e == ChainErr::NotFound && !old(self)@.chain.can_decanonize()
                },
            },
    {
        if self.trustee.is_none() {
            return Err(ChainErr::OtherErr("should set RECEIVE_ADDRESS first"));
        }
        if !self.chain.can_rollback() {
            return Err(ChainErr::NotFound);
        }
        let best = self.chain.best_index().hash;
        let _ = self.rollback_tx(&best);
        proof {
            old(self)@.lemma_rolled_back_frame(best);
        }
        self.chain.decanonize()
    }
}

impl BridgeState {
    /// Undoing changes the trustees' outputs and nothing else.
    pub proof fn lemma_rolled_back_txs_frame(self, txids: Seq<H256>)
        ensures
            self.rolled_back_txs(txids) == (BridgeState {
                utxos: self.rolled_back_txs(txids).utxos,
                ..self
            }),
        decreases txids.len(),
    {
        if txids.len() > 0 {
            self.lemma_rolled_back_txs_frame(txids.drop_last());
        }
    }

    /// Undoing changes the trustees' outputs and nothing else.
    pub proof fn lemma_rolled_back_frame(self, header: H256)
        ensures
            self.rolled_back(header) == (BridgeState {
                utxos: self.rolled_back(header).utxos,
                ..self
            }),
    {
        if self.trustee is Some && self.chain.headers.dom().contains(header) {
            self.lemma_rolled_back_txs_frame(self.chain.headers[header].txid_list);
        }
    }
}

impl Chain {
    /// Applies the transactions of the block `confirmed_header` to `module`.
    pub fn update_header(module: &mut Module, confirmed_header: &BlockHeaderInfo) -> (r: Result<
        (),
        ChainErr,
    >)
        requires
            old(module).wf(),
        ensures
            final(module).wf(),
            r == if old(module)@.chain.headers.dom().contains(confirmed_header.header.hash) {
                Ok::<(), ChainErr>(())
            } else {
                Err::<(), ChainErr>(ChainErr::OtherErr("not found blockheader for this hash"))
            },
            final(module)@ == old(module)@.confirmed_block(confirmed_header.header.hash),
    {
        if module.chain.block_header_for(&confirmed_header.header.hash).is_none() {
            return Err(ChainErr::OtherErr("not found blockheader for this hash"));
        }
        module.handle_confirm_block(&confirmed_header.header.hash);
        Ok(())
    }
}


/// The inputs that spend `chosen`, not signed yet.
pub open spec fn inputs_for(chosen: Seq<UTXO>) -> Seq<InputView> {
    chosen.map_values(
        |u: UTXO|
            InputView {
                previous_output: OutPoint { hash: u.txid, index: u.index },
                script_sig: Seq::empty(),
                sequence: 0xffff_ffff,
            },
    )
}

/// The outputs that pay out `targets`, each less the fee. A target that does not cover the
/// fee is left out.
pub open spec fn payout_outputs(targets: Seq<(Address, u64)>, fee: u64) -> Seq<OutputView>
    decreases targets.len(),
{
    if targets.len() == 0 {
        Seq::empty()
    } else {
        payout_outputs(targets.drop_last(), fee) + if targets.last().1 > fee {
            seq![output_for(targets.last().0, (targets.last().1 - fee) as u64)]
        } else {
            Seq::empty()
        }
    }
}

/// Sum of what `targets` ask for.
pub open spec fn requested(targets: Seq<(Address, u64)>) -> nat
    decreases targets.len(),
{
    if targets.len() == 0 {
        0
    } else {
        requested(targets.drop_last()) + targets.last().1 as nat
    }
}

impl BridgeState {
    /// Where to pay and how much, for each of the applications `ids`; or why one of them
    /// cannot be paid out, the first that cannot.
    pub open spec fn resolved(self, ids: Seq<u32>) -> Result<Seq<(Address, u64)>, &'static str>
        decreases ids.len(),
    {
        if ids.len() == 0 {
            Ok(Seq::empty())
        } else {
            match self.resolved(ids.drop_last()) {
                Err(e) => Err(e),
                Ok(targets) => if !self.applications.dom().contains(ids.last()) {
                    Err("not get record for this key")
                } else {
                    match self.applications[ids.last()].destination {
                        None => Err("parse addr error"),
                        Some(address) => Ok(
                            targets.push((address, self.applications[ids.last()].balance)),
                        ),
                    }
                },
            }
        }
    }

    /// Verdict on proposing a withdrawal for the applications `ids`. The checks are made in
    /// this order: no fault is marked; no other proposal is open; every application can be
    /// paid out; the trustees' unspent outputs cover what is asked for; where change is due,
    /// the trustees have an address for it.
    pub open spec fn proposal_verdict(self, ids: Seq<u32>, fee: u64) -> Result<(), &'static str> {
        if self.withdrawal_disabled {
            Err("withdrawal is disabled")
        } else if self.proposal is Some {
            Err("there is an unfinished withdrawal proposal")
        } else {
            match self.resolved(ids) {
                Err(e) => Err(e),
                Ok(targets) => if requested(targets) > u64::MAX {
                    Err("lack of balance")
                } else {
                    match selection(self.utxos, requested(targets) as u64) {
                        None => Err("lack of balance"),
                        Some(chosen) => if total_balance(chosen) > requested(targets) + fee {
                            if self.trustee is None {
                                Err("should set trustee_address first")
                            } else if total_balance(chosen) - requested(targets) - fee > u64::MAX {
                                Err("change too high")
                            } else {
                                Ok(())
                            }
                        } else {
                            Ok(())
                        },
                    }
                },
            }
        }
    }

    /// The transaction that pays out the applications `ids`: it spends the outputs chosen
    /// for what is asked for, pays each application less the fee, and pays what is left over
    /// back to the trustees. It has no identifier yet, as it is not signed.
    pub open spec fn proposed_tx(self, ids: Seq<u32>, fee: u64) -> TransactionView {
        let targets = self.resolved(ids)->Ok_0;
        let chosen = selection(self.utxos, requested(targets) as u64)->0;
        let change = total_balance(chosen) - requested(targets) - fee;
        TransactionView {
            hash: H256::spec_zero(),
            version: 1,
            inputs: inputs_for(chosen),
            outputs: payout_outputs(targets, fee) + if change > 0 {
                seq![output_for(self.trustee->0, change as u64)]
            } else {
                Seq::empty()
            },
            lock_time: 0,
        }
    }

    /// The state after a withdrawal was proposed for the applications `ids`.
    pub open spec fn proposed(self, ids: Seq<u32>, fee: u64) -> BridgeState {
        BridgeState {
            proposal: Some(
                ProposalView {
                    sig_state: VoteResult::Unfinish,
                    withdrawal_id_list: ids,
                    tx: self.proposed_tx(ids, fee),
                },
            ),
            ..self
        }
    }

    /// Proposal exclusivity: while a proposal is open, no other can be made.
    pub proof fn lemma_proposal_exclusive(self, ids: Seq<u32>, fee: u64, other_ids: Seq<u32>, other_fee: u64)
        requires
            self.proposal_verdict(ids, fee).is_ok(),
        ensures
            self.proposed(ids, fee).proposal_verdict(other_ids, other_fee) == Err::<(), &'static str>(
                "there is an unfinished withdrawal proposal",
            ),
    {
    }

    /// Applying transactions leaves the chain as it is.
    pub proof fn lemma_after_txs_chain(self, txids: Seq<H256>)
        ensures
            self.after_txs(txids).chain == self.chain,
        decreases txids.len(),
    {
        if txids.len() > 0 {
            self.lemma_after_txs_chain(txids.drop_last());
            let before = self.after_txs(txids.drop_last());
            let txid = txids.last();
            if before.txs.dom().contains(txid) && !before.txs[txid].handled {
                let info = before.txs[txid].info;
                match info.tx_type {
                    TxType::Withdrawal => {
                        match before.proposal {
                            Some(p) => {
                                before.lemma_finished_all_frame(p.withdrawal_id_list, txid);
                            },
                            None => {},
                        }
                    },
                    TxType::Deposit | TxType::TrusteeBind => {
                        match deposit_outputs(info.raw_tx, before.trustee_hash()) {
                            Ok(parsed) => {
                                match parsed.account_info {
                                    Some((who, channel)) => {
                                        if before.pending.dom().contains(info.input_address) {
                                            lemma_credited_all_frame(
                                                before,
                                                before,
                                                info.input_address,
                                                who,
                                                before.pending[info.input_address],
                                            );
                                        }
                                    },
                                    None => {},
                                }
                            },
                            Err(_) => {},
                        }
                    },
                    TxType::Unknown => {},
                }
            }
        }
    }

    /// Within the confirmation depth: a header that confirms no block and marks no fault
    /// leaves the balances, the trustees' outputs, the waiting deposits, the bound addresses
    /// and the proposal as they are, whatever it does to the best chain.
    pub proof fn lemma_pushed_without_confirmation(self, header: BlockHeader)
        requires
            self.chain.confirmed_by(header).len() == 0,
        ensures
            self.pushed(header).ledger == self.ledger,
            self.pushed(header).utxos == self.utxos,
            self.pushed(header).pending == self.pending,
            self.pushed(header).bindings == self.bindings,
            self.pushed(header).proposal == self.proposal,
            self.pushed(header).applications == self.applications,
            self.pushed(header).events == self.events,
    {
    }

    /// Applied exactly once: once a relayed transaction has been applied, applying it again
    /// changes nothing. Whether it was applied or refused, a second attempt leaves the
    /// balances, the trustees' outputs and the waiting deposits as the first one left them.
    pub proof fn lemma_tx_applied_once(self, txid: H256)
        ensures
            self.tx_result(txid).is_ok() ==> self.after_tx(txid).after_tx(txid) == self.after_tx(
                txid,
            ) && self.after_tx(txid).tx_result(txid).is_ok(),
            self.after_tx(txid).after_tx(txid).ledger == self.after_tx(txid).ledger,
            self.after_tx(txid).after_tx(txid).utxos == self.after_tx(txid).utxos,
            self.after_tx(txid).after_tx(txid).pending == self.after_tx(txid).pending,
    {
    }
}

impl Module {
    /// Where to pay and how much, for each of the applications `ids`.
    fn resolve(&self, ids: &Vec<u32>) -> (r: Result<Vec<(Address, u64)>, &'static str>)
        requires
            self.wf(),
        ensures
            match r {
                Ok(targets) => self@.resolved(ids@) == Ok::<Seq<(Address, u64)>, &'static str>(
                    targets@,
                ),
                Err(e) => self@.resolved(ids@) == Err::<Seq<(Address, u64)>, &'static str>(e),
            },
    {
        let mut targets: Vec<(Address, u64)> = Vec::new();
        let mut i: usize = 0;
        assert(ids@.take(0) =~= Seq::<u32>::empty());
        while i < ids.len()
            invariant
                self.wf(),
                i <= ids.len(),
                self@.resolved(ids@.take(i as int)) == Ok::<Seq<(Address, u64)>, &'static str>(
                    targets@,
                ),
            decreases ids.len() - i,
        {
            proof {
                assert(ids@.take(i + 1).drop_last() =~= ids@.take(i as int));
                assert(ids@.take(i + 1).last() == ids@[i as int]);
            }
            let (address, balance) = match self.applications.get(&ids[i]) {
                Some(application) => match application.destination {
                    Some(address) => (address, application.balance),
                    None => {
                        proof {
                            lemma_resolved_fails(self@, ids@, i + 1);
                        }
                        return Err("parse addr error");
                    },
                },
                None => {
                    proof {
                        lemma_resolved_fails(self@, ids@, i + 1);
                    }
                    return Err("not get record for this key");
                },
            };
            targets.push((address, balance));
            i += 1;
        }
        assert(ids@.take(ids.len() as int) =~= ids@);
        Ok(targets)
    }

    /// Proposes a withdrawal that pays out the applications `withdrawal_record_indexs`, each
    /// less `fee`. The transaction spends the newest unspent outputs of the trustees, as many
    /// as it takes, and pays what is left over back to them. Nothing is changed where the
    /// proposal cannot be made; no proposal is made while another is open.
    pub fn create_withdrawal_proposal(&mut self, withdrawal_record_indexs: Vec<u32>, fee: u64) -> (r:
        Result<(), &'static str>)
        requires
            old(self).wf(),
        ensures
            final(self).wf(),
            r == old(self)@.proposal_verdict(withdrawal_record_indexs@, fee),
            r.is_ok() ==> final(self)@ == old(self)@.proposed(withdrawal_record_indexs@, fee),
            r.is_err() ==> final(self)@ == old(self)@,
    {
        if self.withdrawal_disabled {
            return Err("withdrawal is disabled");
        }
        if self.proposal.is_some() {
            return Err("there is an unfinished withdrawal proposal");
        }
        let targets = match self.resolve(&withdrawal_record_indexs) {
            Ok(targets) => targets,
            Err(e) => {
                return Err(e);
            },
        };
        let mut outputs: Vec<TransactionOutput> = Vec::new();
        let mut out_balance: u128 = 0;
        let mut i: usize = 0;
        assert(targets@.take(0) =~= Seq::<(Address, u64)>::empty());
        assert(outputs_view(outputs@) =~= Seq::<OutputView>::empty());
        while i < targets.len()
            invariant
                i <= targets.len(),
                outputs_view(outputs@) == payout_outputs(targets@.take(i as int), fee),
                out_balance == requested(targets@.take(i as int)),
                out_balance <= i * 0xffff_ffff_ffff_ffff,
            decreases targets.len() - i,
        {
            proof {
                assert(targets@.take(i + 1).drop_last() =~= targets@.take(i as int));
                assert(targets@.take(i + 1).last() == targets@[i as int]);
                assert((i + 1) * 0xffff_ffff_ffff_ffff == i * 0xffff_ffff_ffff_ffff
                    + 0xffff_ffff_ffff_ffff) by (nonlinear_arith);
                assert(i * 0xffff_ffff_ffff_ffff <= 0xffff_ffff_ffff_ffff * 0xffff_ffff_ffff_ffff)
                    by (nonlinear_arith)
                    requires
                        i <= 0xffff_ffff_ffff_ffff,
                ;
            }
            let (address, balance) = targets[i];
            if balance > fee {
                let ghost before = outputs@;
                outputs.push(pay_to(&address, balance - fee));
                assert(outputs_view(outputs@) =~= outputs_view(before) + seq![
                    output_for(address, (balance - fee) as u64),
                ]);
            } else {
                assert(outputs_view(outputs@) + Seq::<OutputView>::empty() =~= outputs_view(
                    outputs@,
                ));
            }
            out_balance = out_balance + balance as u128;
            i += 1;
        }
        assert(targets@.take(targets.len() as int) =~= targets@);
        if out_balance > u64::MAX as u128 {
            return Err("lack of balance");
        }
        let utxo_set = match self.utxos.select_utxo(out_balance as u64) {
            Some(u) => u,
            None => {
                return Err("lack of balance");
            },
        };
        let mut inputs: Vec<TransactionInput> = Vec::new();
        let mut ins_balance: u128 = 0;
        let mut k: usize = 0;
        assert(inputs_view(inputs@) =~= inputs_for(utxo_set@).take(0));
        assert(utxo_set@.take(0) =~= Seq::<UTXO>::empty());
        while k < utxo_set.len()
            invariant
                k <= utxo_set.len(),
                inputs_view(inputs@) == inputs_for(utxo_set@).take(k as int),
                ins_balance == total_balance(utxo_set@.take(k as int)),
                ins_balance <= k * 0xffff_ffff_ffff_ffff,
            decreases utxo_set.len() - k,
        {
            proof {
                assert(utxo_set@.take(k + 1).drop_last() =~= utxo_set@.take(k as int));
                assert(utxo_set@.take(k + 1).last() == utxo_set@[k as int]);
                assert((k + 1) * 0xffff_ffff_ffff_ffff == k * 0xffff_ffff_ffff_ffff
                    + 0xffff_ffff_ffff_ffff) by (nonlinear_arith);
                assert(k * 0xffff_ffff_ffff_ffff <= 0xffff_ffff_ffff_ffff * 0xffff_ffff_ffff_ffff)
                    by (nonlinear_arith)
                    requires
                        k <= 0xffff_ffff_ffff_ffff,
                ;
            }
            let utxo = utxo_set[k];
            let ghost before = inputs@;
            inputs.push(
                TransactionInput {
                    previous_output: OutPoint { hash: utxo.txid, index: utxo.index },
                    script_sig: Vec::new(),
                    sequence: 0xffff_ffff,
                },
            );
            assert(inputs_view(inputs@) =~= inputs_view(before).push(inputs_for(utxo_set@)[k as int]));
            assert(inputs_view(inputs@) =~= inputs_for(utxo_set@).take(k + 1));
            ins_balance = ins_balance + utxo.balance as u128;
            k += 1;
        }
        assert(utxo_set@.take(utxo_set.len() as int) =~= utxo_set@);
        assert(inputs_for(utxo_set@).take(utxo_set.len() as int) =~= inputs_for(utxo_set@));
        if ins_balance > out_balance + fee as u128 {
            let trustee_address = match self.trustee {
                Some(t) => t,
                None => {
                    return Err("should set trustee_address first");
                },
            };
            let change = ins_balance - out_balance - fee as u128;
            if change > u64::MAX as u128 {
                return Err("change too high");
            }
            let ghost before = outputs@;
            outputs.push(pay_to(&trustee_address, change as u64));
            assert(outputs_view(outputs@) =~= outputs_view(before) + seq![
                output_for(trustee_address, change as u64),
            ]);
        } else {
            assert(outputs_view(outputs@) + Seq::<OutputView>::empty() =~= outputs_view(outputs@));
        }
        let tx = Transaction { hash: H256::zero(), version: 1, inputs, outputs, lock_time: 0 };
        self.proposal = Some(
            WithdrawalProposal {
                sig_state: VoteResult::Unfinish,
                withdrawal_id_list: withdrawal_record_indexs,
                tx,
            },
        );
        Ok(())
    }
}

/// Once an application cannot be paid out, no longer list of applications can.
pub proof fn lemma_resolved_fails(s: BridgeState, ids: Seq<u32>, n: int)
    requires
        0 <= n <= ids.len(),
        s.resolved(ids.take(n)) is Err,
    ensures
        s.resolved(ids) == s.resolved(ids.take(n)),
    decreases ids.len() - n,
{
    if n == ids.len() {
        assert(ids.take(n) =~= ids);
    } else {
        assert(ids.take(n + 1).drop_last() =~= ids.take(n));
        lemma_resolved_fails(s, ids, n + 1);
    }
}


impl BridgeState {
    /// Verdict on the form of a signed withdrawal that is handed in: there must be a
    /// proposal, the transaction must be the proposed one but for its signatures, and it must
    /// have the form of a signed withdrawal. The first error that applies, if any does.
    pub open spec fn signing_form(
        self,
        tx: TransactionView,
        sigs: Option<Vec<Vec<u8>>>,
        trustee_info: Option<&TrusteeInfo>,
    ) -> Result<(), &'static str> {
        match self.proposal {
            None => Err("No candidate tx"),
            Some(p) => match identical_verdict(tx, p.tx) {
                Err(e) => Err(e),
                Ok(()) => signed_tx_form(tx, sigs, trustee_info),
            },
        }
    }

    /// The state after the proposal took the signed transaction `tx` with `signed`
    /// signatures: the signing is finished once there are `required` of them.
    pub open spec fn signed(self, tx: TransactionView, signed: nat, required: u32) -> BridgeState {
        BridgeState {
            proposal: Some(
                ProposalView {
                    sig_state: if signed >= required {
                        VoteResult::Finish
                    } else {
                        VoteResult::Unfinish
                    },
                    tx,
                    ..self.proposal->0
                },
            ),
            ..self
        }
    }
}

impl Module {
    /// Takes in the proposed withdrawal with the trustees' signatures. `sigs` are the
    /// signatures found in the script of its first input. The transaction must be the
    /// proposed one, and each signature must verify by one of the trustees' keys; the
    /// proposal then takes the signed transaction, and the signing is finished once there are
    /// `required` signatures. Nothing is changed where the transaction is refused.
    pub fn sign_withdrawal_proposal<F: Fn(&Transaction, &SignatureCheck) -> bool>(
        &mut self,
        tx: Transaction,
        sigs: Option<Vec<Vec<u8>>>,
        trustee_info: Option<&TrusteeInfo>,
        required: u32,
        checker: &F,
    ) -> (r: Result<(), &'static str>)
        requires
            old(self).wf(),
            forall|t: &Transaction, c: &SignatureCheck| call_requires(*checker, (t, c)),
        ensures
            final(self).wf(),
            old(self)@.signing_form(tx@, sigs, trustee_info) matches Err(e) ==> r == Err::<
                (),
                &'static str,
            >(e),
            old(self)@.signing_form(tx@, sigs, trustee_info).is_ok() && sigs->0@.len() == 0 ==> r.is_ok(),
            match r {
                Ok(()) => old(self)@.signing_form(tx@, sigs, trustee_info).is_ok() && final(self)@
                    == old(self)@.signed(tx@, sigs->0@.len(), required) && forall|i: int|
                    0 <= i < sigs->0@.len() ==> some_key_verifies(
                        *checker,
                        &tx,
                        (#[trigger] sigs->0@[i])@,
                        trustee_info->0.pubkeys->0@,
                        trustee_info->0.hot_redeem_script@,
                    ),
                Err(e) => final(self)@ == old(self)@ && (old(self)@.signing_form(
                    tx@,
                    sigs,
                    trustee_info,
                ).is_ok() ==> e == "Verify sign failed" && exists|i: int|
                    0 <= i < sigs->0@.len() && no_key_verifies(
                        *checker,
                        &tx,
                        (#[trigger] sigs->0@[i])@,
                        trustee_info->0.pubkeys->0@,
                        trustee_info->0.hot_redeem_script@,
                    )),
            },
    {
        let proposal = match self.withdrawal_proposal() {
            Some(p) => p,
            None => {
                return Err("No candidate tx");
            },
        };
        match ensure_identical(&tx, &proposal.tx) {
            Ok(()) => {},
            Err(e) => {
                return Err(e);
            },
        }
        let checked = match parse_and_check_signed_tx(&tx, sigs, trustee_info, checker) {
            Ok(checked) => checked,
            Err(e) => {
                return Err(e);
            },
        };
        let sig_state = if checked.len() >= required as usize {
            VoteResult::Finish
        } else {
            VoteResult::Unfinish
        };
        self.proposal = Some(
            WithdrawalProposal { sig_state, withdrawal_id_list: proposal.withdrawal_id_list, tx },
        );
        Ok(())
    }
}


/// Whether `utxo` is the output `tx.outputs[utxo.index]`, unspent, which pays to `hash`.
pub open spec fn is_output_of(utxo: UTXO, tx: TransactionView, hash: H160) -> bool {
    &&& utxo.txid == tx.hash
    &&& !utxo.is_spent
    &&& utxo.index < tx.outputs.len()
    &&& tx.outputs[utxo.index as int].pays_to(hash)
    &&& utxo.balance == tx.outputs[utxo.index as int].value
}

/// What the outputs of a transaction that pay to `hash` hold is what the transaction pays to
/// `hash`; each of them is an output that pays to `hash`, and none carries data.
pub proof fn lemma_new_utxos_hold_the_deposit(tx: TransactionView, hash: H160, n: nat)
    requires
        n <= tx.outputs.len(),
        n <= 0xffff_ffff,
    ensures
        total_balance(new_utxos_in(tx, hash, n)) == crate::tx::deposit_sum(
            tx.outputs.take(n as int),
            hash,
        ),
        forall|i: int|
            0 <= i < new_utxos_in(tx, hash, n).len() ==> is_output_of(
                #[trigger] new_utxos_in(tx, hash, n)[i],
                tx,
                hash,
            ),
    decreases n,
{
    if n == 0 {
        assert(tx.outputs.take(0) =~= Seq::<OutputView>::empty());
    } else {
        lemma_new_utxos_hold_the_deposit(tx, hash, (n - 1) as nat);
        let before = new_utxos_in(tx, hash, (n - 1) as nat);
        let now = new_utxos_in(tx, hash, n);
        assert(tx.outputs.take(n as int).drop_last() =~= tx.outputs.take(n - 1));
        assert(tx.outputs.take(n as int).last() == tx.outputs[n - 1]);
        if tx.outputs[n - 1].pays_to(hash) {
            let added = UTXO {
                txid: tx.hash,
                index: (n - 1) as u32,
                balance: tx.outputs[n - 1].value,
                is_spent: false,
            };
            assert(now == before + seq![added]);
            assert(now.drop_last() =~= before);
            assert(now.last() == added);
            assert(is_output_of(added, tx, hash));
            assert forall|i: int| 0 <= i < now.len() implies is_output_of(#[trigger] now[i], tx, hash) by {
                if i < before.len() {
                    assert(now[i] == before[i]);
                }
            }
        } else {
            assert(before + Seq::<UTXO>::empty() =~= before);
        }
    }
}

impl BridgeState {
    /// A deposit waits once: it is put at the end of what waits at its address unless it
    /// waits there already, nothing else is touched, and putting it there again changes
    /// nothing.
    pub proof fn lemma_pending_added(self, address: Address, txid: H256, balance: u64)
        ensures
            self.pending_added(address, txid, balance).pending_of(address) == if self.pending_of(
                address,
            ).contains(DepositCache { txid, balance }) {
                self.pending_of(address)
            } else {
                self.pending_of(address).push(DepositCache { txid, balance })
            },
            self.pending_added(address, txid, balance).pending_of(address).contains(
                DepositCache { txid, balance },
            ),
            forall|other: Address|
                other != address ==> #[trigger] self.pending_added(
                    address,
                    txid,
                    balance,
                ).pending_of(other) == self.pending_of(other),
            self.pending_added(address, txid, balance).pending_added(address, txid, balance)
                == self.pending_added(address, txid, balance),
            self.pending_added(address, txid, balance) == (BridgeState {
                pending: self.pending_added(address, txid, balance).pending,
                ..self
            }),
    {
        let cache = DepositCache { txid, balance };
        let after = self.pending_added(address, txid, balance);
        if !self.pending_of(address).contains(cache) {
            let list = self.pending_of(address).push(cache);
            assert(list[list.len() - 1] == cache);
        }
        assert(after.pending_added(address, txid, balance).pending =~= after.pending);
    }

    /// A deposit that names no account, from an address that is bound to none, waits at that
    /// address: nobody is credited.
    pub proof fn lemma_deposit_waits(self, txid: H256, info: TxInfoView)
        requires
            deposit_outputs(info.raw_tx, self.trustee_hash()) is Ok,
            deposit_outputs(info.raw_tx, self.trustee_hash())->Ok_0.account_info is None,
            deposit_outputs(info.raw_tx, self.trustee_hash())->Ok_0.deposit_balance > 0,
            self.bound_account(info.input_address) is None,
        ensures
            self.deposit_result(info).is_ok(),
            self.after_deposit(txid, info).ledger == self.ledger,
            self.after_deposit(txid, info).bindings == self.bindings,
            self.after_deposit(txid, info).pending == self.pending_added(
                info.input_address,
                txid,
                deposit_outputs(info.raw_tx, self.trustee_hash())->Ok_0.deposit_balance,
            ).pending,
    {
    }

    /// The account that the deposit `info` names.
    pub open spec fn named_account(self, info: TxInfoView) -> Option<AccountId> {
        match deposit_outputs(info.raw_tx, self.trustee_hash()) {
            Ok(parsed) => match parsed.account_info {
                Some((who, _)) => Some(who),
                None => None,
            },
            Err(_) => None,
        }
    }

    /// A transaction that names an account binds its address to it and credits what waited
    /// there, deposit by deposit; nothing waits at the address any more.
    pub proof fn lemma_bind_credits(self, txid: H256, info: TxInfoView)
        requires
            self.named_account(info) is Some,
            deposit_outputs(info.raw_tx, self.trustee_hash())->Ok_0.deposit_balance == 0,
        ensures
            self.deposit_result(info).is_ok(),
            self.after_deposit(txid, info).bound_account(info.input_address) == self.named_account(
                info,
            ),
            !self.after_deposit(txid, info).pending.dom().contains(info.input_address),
            self.after_deposit(txid, info).ledger == self.credited_all(
                info.input_address,
                self.named_account(info)->0,
                self.pending_of(info.input_address),
            ).ledger,
    {
        lemma_credited_all_frame(
            self,
            self,
            info.input_address,
            self.named_account(info)->0,
            self.pending_of(info.input_address),
        );
    }

    /// Where one deposit waits and the balance store accepts it, crediting what waits raises
    /// the free balance of the account by exactly that deposit, and no other balance changes.
    pub proof fn lemma_one_waiting_deposit_credited(self, address: Address, who: AccountId, cache: DepositCache)
        requires
            self.ledger.issue_verdict(btc(), who, cache.balance).is_ok(),
        ensures
            self.credited_all(address, who, seq![cache]).ledger == self.ledger.issued(
                btc(),
                who,
                cache.balance,
            ),
            self.credited_all(address, who, seq![cache]).ledger.balance(who, btc(), AssetType::Free)
                == self.ledger.balance(who, btc(), AssetType::Free) + cache.balance,
            forall|w: AccountId, t: Seq<u8>, y: AssetType|
                !(w == who && t == btc() && y == AssetType::Free) ==> #[trigger] self.credited_all(
                    address,
                    who,
                    seq![cache],
                ).ledger.balance(w, t, y) == self.ledger.balance(w, t, y),
    {
        let one = seq![cache];
        assert(one.drop_last() =~= Seq::<DepositCache>::empty());
        assert(one.last() == cache);
        assert(self.credited_all(address, who, one.drop_last()) == self);
        self.ledger.lemma_issued(btc(), who, cache.balance);
    }
}

} // verus!
