//! The balance store: per-account, per-token balances split by purpose, with
//! per-token totals that always equal the sum over the holders.

use vstd::prelude::*;
use crate::assetdef::{is_valid_token, token_verdict, Asset, AssetView, Chain, Token};
use crate::primitives::{bytes_clone, bytes_eq, lemma_filter_empty, lemma_filter_step, AccountId, Balance};
use crate::table::{Key, Table};

verus! {

/// The purpose a part of a balance is set aside for.
#[derive(Clone, Copy, PartialEq, Eq, Structural, Debug)]
pub enum AssetType {
    Free,
    ReservedStaking,
    ReservedStakingRevocation,
    ReservedWithdrawal,
    ReservedDexSpot,
    ReservedDexFuture,
}

impl AssetType {
    /// Every asset type, in declaration order.
    pub open spec fn all() -> Seq<AssetType> {
        seq![
            AssetType::Free,
            AssetType::ReservedStaking,
            AssetType::ReservedStakingRevocation,
            AssetType::ReservedWithdrawal,
            AssetType::ReservedDexSpot,
            AssetType::ReservedDexFuture,
        ]
    }

    pub fn iterator() -> (types: Vec<AssetType>)
        ensures
            types@ == AssetType::all(),
    {
        let mut v: Vec<AssetType> = Vec::new();
        v.push(AssetType::Free);
        v.push(AssetType::ReservedStaking);
        v.push(AssetType::ReservedStakingRevocation);
        v.push(AssetType::ReservedWithdrawal);
        v.push(AssetType::ReservedDexSpot);
        v.push(AssetType::ReservedDexFuture);
        assert(v@ =~= AssetType::all());
        v
    }
}

impl Default for AssetType {
    fn default() -> (t: Self)
        ensures
            t == AssetType::Free,
    {
        AssetType::Free
    }
}

/// Why a balance move was refused.
#[derive(Clone, Copy, PartialEq, Eq, Structural, Debug)]
pub enum AssetErr {
    NotEnough,
    OverFlow,
    TotalAssetOverFlow,
    TotalAssetNotEnough,
    InvalidToken,
    InvalidAccount,
}

impl AssetErr {
    pub open spec fn spec_info(self) -> &'static str {
        match self {
            AssetErr::NotEnough => "balance too low for this account",
            AssetErr::OverFlow => "balance too high for this account",
            AssetErr::TotalAssetOverFlow => "balance too low for this asset",
            AssetErr::TotalAssetNotEnough => "balance too high for this asset",
            AssetErr::InvalidToken => "not a valid token for this account",
            AssetErr::InvalidAccount => "account Locked",
        }
    }

    #[verifier::when_used_as_spec(spec_info)]
    pub fn info(self) -> (s: &'static str)
        ensures
            s == self.spec_info(),
    {
        match self {
            AssetErr::NotEnough => "balance too low for this account",
            AssetErr::OverFlow => "balance too high for this account",
            AssetErr::TotalAssetOverFlow => "balance too low for this asset",
            AssetErr::TotalAssetNotEnough => "balance too high for this asset",
            AssetErr::InvalidToken => "not a valid token for this account",
            AssetErr::InvalidAccount => "account Locked",
        }
    }
}

/// One balance per asset type.
#[derive(Clone, Copy, PartialEq, Eq, Structural, Debug)]
pub struct Balances {
    pub free: Balance,
    pub reserved_staking: Balance,
    pub reserved_staking_revocation: Balance,
    pub reserved_withdrawal: Balance,
    pub reserved_dex_spot: Balance,
    pub reserved_dex_future: Balance,
}

impl Balances {
    /// Nothing of any type.
    pub open spec fn spec_zero() -> Balances {
        Balances {
            free: 0,
            reserved_staking: 0,
            reserved_staking_revocation: 0,
            reserved_withdrawal: 0,
            reserved_dex_spot: 0,
            reserved_dex_future: 0,
        }
    }

    #[verifier::when_used_as_spec(spec_zero)]
    pub fn zero() -> (b: Balances)
        ensures
            b == Balances::spec_zero(),
    {
        Balances {
            free: 0,
            reserved_staking: 0,
            reserved_staking_revocation: 0,
            reserved_withdrawal: 0,
            reserved_dex_spot: 0,
            reserved_dex_future: 0,
        }
    }

    /// The balance of type `t`.
    #[verifier::opaque]
    pub open spec fn spec_get(self, t: AssetType) -> Balance {
        match t {
            AssetType::Free => self.free,
            AssetType::ReservedStaking => self.reserved_staking,
            AssetType::ReservedStakingRevocation => self.reserved_staking_revocation,
            AssetType::ReservedWithdrawal => self.reserved_withdrawal,
            AssetType::ReservedDexSpot => self.reserved_dex_spot,
            AssetType::ReservedDexFuture => self.reserved_dex_future,
        }
    }

    #[verifier::when_used_as_spec(spec_get)]
    pub fn get(self, t: AssetType) -> (b: Balance)
        ensures
            b == self.spec_get(t),
    {
        reveal(Balances::spec_get);
        match t {
            AssetType::Free => self.free,
            AssetType::ReservedStaking => self.reserved_staking,
            AssetType::ReservedStakingRevocation => self.reserved_staking_revocation,
            AssetType::ReservedWithdrawal => self.reserved_withdrawal,
            AssetType::ReservedDexSpot => self.reserved_dex_spot,
            AssetType::ReservedDexFuture => self.reserved_dex_future,
        }
    }

    /// These balances with the one of type `t` replaced by `value`.
    #[verifier::opaque]
    pub open spec fn spec_with(self, t: AssetType, value: Balance) -> Balances {
        match t {
            AssetType::Free => Balances { free: value, ..self },
            AssetType::ReservedStaking => Balances { reserved_staking: value, ..self },
            AssetType::ReservedStakingRevocation => Balances {
                reserved_staking_revocation: value,
                ..self
            },
            AssetType::ReservedWithdrawal => Balances { reserved_withdrawal: value, ..self },
            AssetType::ReservedDexSpot => Balances { reserved_dex_spot: value, ..self },
            AssetType::ReservedDexFuture => Balances { reserved_dex_future: value, ..self },
        }
    }

    #[verifier::when_used_as_spec(spec_with)]
    pub fn with(self, t: AssetType, value: Balance) -> (b: Balances)
        ensures
            b == self.spec_with(t, value),
    {
        reveal(Balances::spec_with);
        let mut b = self;
        match t {
            AssetType::Free => {
                b.free = value;
            },
            AssetType::ReservedStaking => {
                b.reserved_staking = value;
            },
            AssetType::ReservedStakingRevocation => {
                b.reserved_staking_revocation = value;
            },
            AssetType::ReservedWithdrawal => {
                b.reserved_withdrawal = value;
            },
            AssetType::ReservedDexSpot => {
                b.reserved_dex_spot = value;
            },
            AssetType::ReservedDexFuture => {
                b.reserved_dex_future = value;
            },
        }
        b
    }

    /// How reading and replacing one balance relate, for every value.
    pub proof fn lemma_get_with()
        ensures
            forall|b: Balances, t: AssetType, v: Balance, y: AssetType|
                #[trigger] b.spec_with(t, v).spec_get(y) == if y == t {
                    v
                } else {
                    b.spec_get(y)
                },
            forall|b: Balances, t: AssetType, v: Balance| #[trigger]
                b.spec_with(t, v).sum() == b.sum() + v - b.spec_get(t),
            forall|b: Balances, t: AssetType, v: Balance| #[trigger]
                b.spec_with(t, v).reserved_sum() == b.reserved_sum() + if t == AssetType::Free {
                    0
                } else {
                    v - b.spec_get(t)
                },
            forall|y: AssetType| #[trigger] Balances::spec_zero().spec_get(y) == 0,
            forall|b: Balances| #[trigger] b.spec_get(AssetType::Free) == b.free,
    {
        reveal(Balances::spec_get);
        reveal(Balances::spec_with);
    }

    /// Sum of the balances of every type.
    pub open spec fn sum(self) -> int {
        self.free + self.reserved_staking + self.reserved_staking_revocation
            + self.reserved_withdrawal + self.reserved_dex_spot + self.reserved_dex_future
    }

    /// Sum of the balances of every type but `Free`.
    pub open spec fn reserved_sum(self) -> int {
        self.sum() - self.free
    }

    pub fn total(self) -> (s: u128)
        ensures
            s == self.sum(),
    {
        self.free as u128 + self.reserved_staking as u128 + self.reserved_staking_revocation as u128
            + self.reserved_withdrawal as u128 + self.reserved_dex_spot as u128
            + self.reserved_dex_future as u128
    }
}

/// The entry of type `t` in a list of balances to set, if there is one.
pub open spec fn entry(t: AssetType, balance: Option<Balance>) -> Seq<(AssetType, Balance)> {
    match balance {
        Some(b) => seq![(t, b)],
        None => Seq::empty(),
    }
}

/// Balances by type, for some of the types: no type occurs twice, and the types come in
/// their order.
#[derive(Clone, Copy, PartialEq, Eq, Structural, Debug)]
pub struct BalanceMap {
    pub free: Option<Balance>,
    pub reserved_staking: Option<Balance>,
    pub reserved_staking_revocation: Option<Balance>,
    pub reserved_withdrawal: Option<Balance>,
    pub reserved_dex_spot: Option<Balance>,
    pub reserved_dex_future: Option<Balance>,
}

impl BalanceMap {
    /// The types that have a balance, each with its balance, in the order of the types.
    pub open spec fn entries(self) -> Seq<(AssetType, Balance)> {
        entry(AssetType::Free, self.free) + entry(AssetType::ReservedStaking, self.reserved_staking)
            + entry(AssetType::ReservedStakingRevocation, self.reserved_staking_revocation) + entry(
            AssetType::ReservedWithdrawal,
            self.reserved_withdrawal,
        ) + entry(AssetType::ReservedDexSpot, self.reserved_dex_spot) + entry(
            AssetType::ReservedDexFuture,
            self.reserved_dex_future,
        )
    }

    /// No balance for any type.
    pub fn empty() -> (m: BalanceMap)
        ensures
            m.entries() == Seq::<(AssetType, Balance)>::empty(),
    {
        let m = BalanceMap {
            free: None,
            reserved_staking: None,
            reserved_staking_revocation: None,
            reserved_withdrawal: None,
            reserved_dex_spot: None,
            reserved_dex_future: None,
        };
        assert(m.entries() =~= Seq::<(AssetType, Balance)>::empty());
        m
    }

    /// The types that have a balance, each with its balance, in the order of the types.
    pub fn to_entries(&self) -> (v: Vec<(AssetType, Balance)>)
        ensures
            v@ == self.entries(),
    {
        let mut v: Vec<(AssetType, Balance)> = Vec::new();
        let ghost mut seen = Seq::<(AssetType, Balance)>::empty();
        match self.free {
            Some(b) => {
                v.push((AssetType::Free, b));
            },
            None => {},
        }
        proof {
            seen = seen + entry(AssetType::Free, self.free);
            assert(v@ =~= seen);
        }
        match self.reserved_staking {
            Some(b) => {
                v.push((AssetType::ReservedStaking, b));
            },
            None => {},
        }
        proof {
            seen = seen + entry(AssetType::ReservedStaking, self.reserved_staking);
            assert(v@ =~= seen);
        }
        match self.reserved_staking_revocation {
            Some(b) => {
                v.push((AssetType::ReservedStakingRevocation, b));
            },
            None => {},
        }
        proof {
            seen = seen + entry(
                AssetType::ReservedStakingRevocation,
                self.reserved_staking_revocation,
            );
            assert(v@ =~= seen);
        }
        match self.reserved_withdrawal {
            Some(b) => {
                v.push((AssetType::ReservedWithdrawal, b));
            },
            None => {},
        }
        proof {
            seen = seen + entry(AssetType::ReservedWithdrawal, self.reserved_withdrawal);
            assert(v@ =~= seen);
        }
        match self.reserved_dex_spot {
            Some(b) => {
                v.push((AssetType::ReservedDexSpot, b));
            },
            None => {},
        }
        proof {
            seen = seen + entry(AssetType::ReservedDexSpot, self.reserved_dex_spot);
            assert(v@ =~= seen);
        }
        match self.reserved_dex_future {
            Some(b) => {
                v.push((AssetType::ReservedDexFuture, b));
            },
            None => {},
        }
        proof {
            seen = seen + entry(AssetType::ReservedDexFuture, self.reserved_dex_future);
            assert(v@ =~= seen);
            assert(seen =~= self.entries());
        }
        v
    }
}

/// The native token, whose free balance is the account balance of the chain itself.
pub open spec fn pcx() -> Seq<u8> {
    seq![0x50u8, 0x43u8, 0x58u8]
}

/// The native token.
pub fn pcx_token() -> (t: Token)
    ensures
        t@ == pcx(),
{
    let mut t: Vec<u8> = Vec::new();
    t.push(0x50u8);
    t.push(0x43u8);
    t.push(0x58u8);
    assert(t@ =~= pcx());
    t
}

/// Whether `token` is the native token.
pub fn is_pcx(token: &Token) -> (r: bool)
    ensures
        r == (token@ == pcx()),
{
    let r = token.len() == 3 && token[0] == 0x50u8 && token[1] == 0x43u8 && token[2] == 0x58u8;
    proof {
        if r {
            assert(token@ =~= pcx());
        }
    }
    r
}

/// Key of a holder's entry: the account and the token it holds.
pub struct HolderKey {
    pub who: AccountId,
    pub token: Token,
}

impl Key for HolderKey {
    type Id = (AccountId, Seq<u8>);

    open spec fn id(&self) -> (AccountId, Seq<u8>) {
        (self.who, self.token@)
    }

    fn same(&self, other: &Self) -> (r: bool) {
        self.who == other.who && bytes_eq(&self.token, &other.token)
    }

    fn dup(&self) -> (r: Self) {
        HolderKey { who: self.who, token: bytes_clone(&self.token) }
    }
}

/// What the registry keeps of an asset.
pub struct AssetInfo {
    pub asset: Asset,
    /// `false` once the asset has been revoked.
    pub valid: bool,
    /// Block number at which the asset was registered.
    pub registered_at: u64,
}

/// An [`AssetInfo`] as plain values.
pub struct AssetInfoView {
    pub asset: AssetView,
    pub valid: bool,
    pub registered_at: u64,
}

impl View for AssetInfo {
    type V = AssetInfoView;

    open spec fn view(&self) -> AssetInfoView {
        AssetInfoView { asset: self.asset@, valid: self.valid, registered_at: self.registered_at }
    }
}

/// Sum, over the holder entries of `token`, of the balance of type `ty`.
pub open spec fn sum_held(
    ids: Seq<(AccountId, Seq<u8>)>,
    vals: Seq<Balances>,
    token: Seq<u8>,
    ty: AssetType,
) -> int
    decreases ids.len(),
{
    if ids.len() == 0 || vals.len() != ids.len() {
        0
    } else {
        sum_held(ids.drop_last(), vals.drop_last(), token, ty) + if ids.last().1 == token {
            vals.last().spec_get(ty) as int
        } else {
            0
        }
    }
}

/// Sum of a sequence of balances.
pub open spec fn sum_native(vals: Seq<Balance>) -> int
    decreases vals.len(),
{
    if vals.len() == 0 {
        0
    } else {
        sum_native(vals.drop_last()) + vals.last()
    }
}

proof fn lemma_sum_held_push(
    ids: Seq<(AccountId, Seq<u8>)>,
    vals: Seq<Balances>,
    k: (AccountId, Seq<u8>),
    b: Balances,
    token: Seq<u8>,
    ty: AssetType,
)
    requires
        ids.len() == vals.len(),
    ensures
        sum_held(ids.push(k), vals.push(b), token, ty) == sum_held(ids, vals, token, ty) + if k.1
            == token {
            b.spec_get(ty) as int
        } else {
            0
        },
{
    assert(ids.push(k).drop_last() =~= ids);
    assert(vals.push(b).drop_last() =~= vals);
}

proof fn lemma_sum_held_update(
    ids: Seq<(AccountId, Seq<u8>)>,
    vals: Seq<Balances>,
    p: int,
    b: Balances,
    token: Seq<u8>,
    ty: AssetType,
)
    requires
        ids.len() == vals.len(),
        0 <= p < ids.len(),
    ensures
        sum_held(ids, vals.update(p, b), token, ty) == sum_held(ids, vals, token, ty) + if ids[p].1
            == token {
            b.spec_get(ty) - vals[p].spec_get(ty)
        } else {
            0
        },
    decreases ids.len(),
{
    if p == ids.len() - 1 {
        assert(vals.update(p, b).drop_last() =~= vals.drop_last());
    } else {
        assert(vals.update(p, b).drop_last() =~= vals.drop_last().update(p, b));
        lemma_sum_held_update(ids.drop_last(), vals.drop_last(), p, b, token, ty);
    }
}

proof fn lemma_sum_held_bounds(
    ids: Seq<(AccountId, Seq<u8>)>,
    vals: Seq<Balances>,
    p: int,
    token: Seq<u8>,
    ty: AssetType,
)
    requires
        ids.len() == vals.len(),
        0 <= p < ids.len(),
        ids[p].1 == token,
    ensures
        vals[p].spec_get(ty) <= sum_held(ids, vals, token, ty),
    decreases ids.len(),
{
    lemma_sum_held_nonneg(ids.drop_last(), vals.drop_last(), token, ty);
    if p < ids.len() - 1 {
        lemma_sum_held_bounds(ids.drop_last(), vals.drop_last(), p, token, ty);
    }
}

proof fn lemma_sum_held_nonneg(
    ids: Seq<(AccountId, Seq<u8>)>,
    vals: Seq<Balances>,
    token: Seq<u8>,
    ty: AssetType,
)
    ensures
        0 <= sum_held(ids, vals, token, ty),
    decreases ids.len(),
{
    if ids.len() != 0 && vals.len() == ids.len() {
        lemma_sum_held_nonneg(ids.drop_last(), vals.drop_last(), token, ty);
    }
}

proof fn lemma_sum_native_push(vals: Seq<Balance>, b: Balance)
    ensures
        sum_native(vals.push(b)) == sum_native(vals) + b,
{
    assert(vals.push(b).drop_last() =~= vals);
}

proof fn lemma_sum_native_update(vals: Seq<Balance>, p: int, b: Balance)
    requires
        0 <= p < vals.len(),
    ensures
        sum_native(vals.update(p, b)) == sum_native(vals) + b - vals[p],
    decreases vals.len(),
{
    if p == vals.len() - 1 {
        assert(vals.update(p, b).drop_last() =~= vals.drop_last());
    } else {
        assert(vals.update(p, b).drop_last() =~= vals.drop_last().update(p, b));
        lemma_sum_native_update(vals.drop_last(), p, b);
    }
}

proof fn lemma_sum_native_bounds(vals: Seq<Balance>, p: int)
    requires
        0 <= p < vals.len(),
    ensures
        vals[p] <= sum_native(vals),
    decreases vals.len(),
{
    lemma_sum_native_nonneg(vals.drop_last());
    if p < vals.len() - 1 {
        lemma_sum_native_bounds(vals.drop_last(), p);
    }
}

proof fn lemma_sum_native_nonneg(vals: Seq<Balance>)
    ensures
        0 <= sum_native(vals),
    decreases vals.len(),
{
    if vals.len() != 0 {
        lemma_sum_native_nonneg(vals.drop_last());
    }
}


/// What the balance store tells those who watch it.
#[derive(Debug)]
pub enum Event {
    /// Token, from, type, to, type, amount.
    Move(Token, AccountId, AssetType, AccountId, AssetType, Balance),
    /// Token, holder, amount.
    Issue(Token, AccountId, Balance),
    /// Token, holder, amount.
    Destory(Token, AccountId, Balance),
    /// Token, holder, type, the balance that was set.
    SetBalance(Token, AccountId, AssetType, Balance),
    /// Token, and whether it takes part in mining as an intention of its own.
    Register(Token, bool),
    Revoke(Token),
}

/// An [`Event`] as plain values.
pub enum EventView {
    Move(Seq<u8>, AccountId, AssetType, AccountId, AssetType, Balance),
    Issue(Seq<u8>, AccountId, Balance),
    Destory(Seq<u8>, AccountId, Balance),
    SetBalance(Seq<u8>, AccountId, AssetType, Balance),
    Register(Seq<u8>, bool),
    Revoke(Seq<u8>),
}

impl View for Event {
    type V = EventView;

    open spec fn view(&self) -> EventView {
        match self {
            Event::Move(t, from, from_type, to, to_type, value) => EventView::Move(
                t@,
                *from,
                *from_type,
                *to,
                *to_type,
                *value,
            ),
            Event::Issue(t, who, value) => EventView::Issue(t@, *who, *value),
            Event::Destory(t, who, value) => EventView::Destory(t@, *who, *value),
            Event::SetBalance(t, who, ty, value) => EventView::SetBalance(t@, *who, *ty, *value),
            Event::Register(t, flag) => EventView::Register(t@, *flag),
            Event::Revoke(t) => EventView::Revoke(t@),
        }
    }
}

/// Events as plain values.
pub open spec fn events_view(events: Seq<Event>) -> Seq<EventView> {
    events.map_values(|e: Event| e@)
}

/// The balance store as plain values.
pub struct LedgerState {
    /// Registry: what is known of each registered token.
    pub infos: Map<Seq<u8>, AssetInfoView>,
    /// Registered tokens, in registration order.
    pub listed: Seq<Seq<u8>>,
    /// Balances per holder and token; the native token's free balance is not kept here.
    pub balances: Map<(AccountId, Seq<u8>), Balances>,
    /// Totals per token; the native token's free total is not kept here.
    pub totals: Map<Seq<u8>, Balances>,
    /// Account balances of the chain itself: the native token's free balances.
    pub native_free: Map<AccountId, Balance>,
    /// Everything of the native token that exists, whatever its type.
    pub total_issuance: Balance,
    /// Number of the block being executed.
    pub block_number: u64,
    /// What happened, oldest first, since the events were last taken.
    pub events: Seq<EventView>,
}

impl LedgerState {
    /// The state with `event` added to what happened.
    pub open spec fn with_event(self, event: EventView) -> LedgerState {
        LedgerState { events: self.events.push(event), ..self }
    }

    /// What `who` holds of `token`, by type, as stored.
    pub open spec fn holding(self, who: AccountId, token: Seq<u8>) -> Balances {
        if self.balances.dom().contains((who, token)) {
            self.balances[(who, token)]
        } else {
            Balances::spec_zero()
        }
    }

    /// The account balance of `who` on the chain itself.
    pub open spec fn native_balance(self, who: AccountId) -> Balance {
        if self.native_free.dom().contains(who) {
            self.native_free[who]
        } else {
            0
        }
    }

    /// Balance of type `ty` that `who` holds of `token`.
    pub open spec fn balance(self, who: AccountId, token: Seq<u8>, ty: AssetType) -> Balance {
        if token == pcx() && ty == AssetType::Free {
            self.native_balance(who)
        } else {
            self.holding(who, token).spec_get(ty)
        }
    }

    /// Every balance that `who` holds of `token`.
    pub open spec fn balances_of(self, who: AccountId, token: Seq<u8>) -> Balances {
        if token == pcx() {
            self.holding(who, token).spec_with(AssetType::Free, self.native_balance(who))
        } else {
            self.holding(who, token)
        }
    }

    /// Totals of `token` as stored.
    pub open spec fn stored_total(self, token: Seq<u8>) -> Balances {
        if self.totals.dom().contains(token) {
            self.totals[token]
        } else {
            Balances::spec_zero()
        }
    }

    /// Total of type `ty` of `token`. The native token's free total is what is left of the
    /// total issuance once every reserved total is taken off.
    pub open spec fn total(self, token: Seq<u8>, ty: AssetType) -> int {
        if token == pcx() && ty == AssetType::Free {
            self.total_issuance - self.stored_total(token).reserved_sum()
        } else {
            self.stored_total(token).spec_get(ty) as int
        }
    }

    /// Verdict on using `token`: it must be well formed, registered and not revoked.
    pub open spec fn asset_verdict(self, token: Seq<u8>) -> Result<(), &'static str> {
        if token_verdict(token).is_err() {
            token_verdict(token)
        } else if !self.infos.dom().contains(token) {
            Err("not a registered token")
        } else if !self.infos[token].valid {
            Err("not a valid token")
        } else {
            Ok(())
        }
    }

    /// The state with the balance of type `ty` that `who` holds of `token` set to `value`.
    pub open spec fn with_balance(
        self,
        who: AccountId,
        token: Seq<u8>,
        ty: AssetType,
        value: Balance,
    ) -> LedgerState {
        if token == pcx() && ty == AssetType::Free {
            LedgerState { native_free: self.native_free.insert(who, value), ..self }
        } else {
            LedgerState {
                balances: self.balances.insert(
                    (who, token),
                    self.holding(who, token).spec_with(ty, value),
                ),
                ..self
            }
        }
    }

    /// The state with the free balance that `who` holds of `token` set to `value`, and with
    /// an account of the chain for `who` if there was none.
    pub open spec fn with_free_balance_creating(
        self,
        who: AccountId,
        token: Seq<u8>,
        value: Balance,
    ) -> LedgerState {
        if token == pcx() {
            self.with_balance(who, token, AssetType::Free, value)
        } else if self.native_free.dom().contains(who) {
            self.with_balance(who, token, AssetType::Free, value)
        } else {
            (LedgerState { native_free: self.native_free.insert(who, 0), ..self }).with_balance(
                who,
                token,
                AssetType::Free,
                value,
            )
        }
    }

    /// The state with the total of type `ty` of `token` set to `value`. The native token's
    /// free total is derived, so setting it changes nothing.
    pub open spec fn with_total(self, token: Seq<u8>, ty: AssetType, value: Balance) -> LedgerState {
        if token == pcx() && ty == AssetType::Free {
            self
        } else {
            LedgerState {
                totals: self.totals.insert(token, self.stored_total(token).spec_with(ty, value)),
                ..self
            }
        }
    }
}

/// The balance store.
pub struct Module {
    asset_info: Table<Token, AssetInfo>,
    asset_list: Vec<Token>,
    balances: Table<HolderKey, Balances>,
    totals: Table<Token, Balances>,
    native_free: Table<AccountId, Balance>,
    total_issuance: Balance,
    block_number: u64,
    events: Vec<Event>,
}

impl View for Module {
    type V = LedgerState;

    closed spec fn view(&self) -> LedgerState {
        LedgerState {
            infos: self.asset_info@.map_values(|i: AssetInfo| i@),
            listed: self.asset_list@.map_values(|t: Token| t@),
            balances: self.balances@,
            totals: self.totals@,
            native_free: self.native_free@,
            total_issuance: self.total_issuance,
            block_number: self.block_number,
            events: events_view(self.events@),
        }
    }
}

impl Module {
    /// Keys of the holder entries: account and token.
    pub closed spec fn holder_ids(&self) -> Seq<(AccountId, Seq<u8>)> {
        self.balances.ids()
    }

    /// Balances of the holder entries; `holder_balances()[i]` belongs to `holder_ids()[i]`.
    pub closed spec fn holder_balances(&self) -> Seq<Balances> {
        self.balances.values()
    }

    /// Balances of the accounts of the chain itself.
    pub closed spec fn native_balances(&self) -> Seq<Balance> {
        self.native_free.values()
    }

    /// Accounts of the chain itself; `native_balances()[i]` belongs to `native_ids()[i]`.
    pub closed spec fn native_ids(&self) -> Seq<AccountId> {
        self.native_free.ids()
    }

    /// Sum over all holders of the balance of type `ty` of `token`.
    pub open spec fn held(&self, token: Seq<u8>, ty: AssetType) -> int {
        if token == pcx() && ty == AssetType::Free {
            sum_native(self.native_balances())
        } else {
            sum_held(self.holder_ids(), self.holder_balances(), token, ty)
        }
    }

    closed spec fn tables_wf(&self) -> bool {
        &&& self.asset_info.wf()
        &&& self.balances.wf()
        &&& self.totals.wf()
        &&& self.native_free.wf()
        &&& forall|i: int|
            0 <= i < self.asset_list@.len() ==> self.asset_info@.dom().contains(
                #[trigger] self.asset_list@[i]@,
            )
    }

    closed spec fn conserved(&self) -> bool {
        &&& forall|t: Seq<u8>, y: AssetType|
            !(t == pcx() && y == AssetType::Free) ==> (#[trigger] self@.stored_total(t).spec_get(y))
                == sum_held(self.balances.ids(), self.balances.values(), t, y)
        &&& self.total_issuance == sum_native(self.native_free.values()) + self@.stored_total(
            pcx(),
        ).reserved_sum()
    }

    /// Well-formedness: the store is consistent, and every total equals the sum over the
    /// holders.
    pub closed spec fn wf(&self) -> bool {
        self.tables_wf() && self.conserved()
    }

    /// Conservation: in a well-formed store the total of each type of each token equals the
    /// sum of what the holders have of it.
    pub proof fn lemma_conservation(&self, token: Seq<u8>, ty: AssetType)
        requires
            self.wf(),
        ensures
            self@.total(token, ty) == self.held(token, ty),
    {
        if token == pcx() && ty == AssetType::Free {
        } else {
            assert(self@.stored_total(token).spec_get(ty) == sum_held(
                self.balances.ids(),
                self.balances.values(),
                token,
                ty,
            ));
        }
    }

    /// The holder entries are exactly the stored balances: no holder occurs twice, each entry
    /// is what the state holds for its key, and every stored key has an entry.
    pub proof fn lemma_holders(&self)
        requires
            self.wf(),
        ensures
            self.holder_ids().len() == self.holder_balances().len(),
            self.holder_ids().no_duplicates(),
            forall|i: int|
                0 <= i < self.holder_ids().len() ==> self@.balances.dom().contains(
                    #[trigger] self.holder_ids()[i],
                ) && self@.balances[self.holder_ids()[i]] == self.holder_balances()[i],
            forall|k: (AccountId, Seq<u8>)|
                self@.balances.dom().contains(k) ==> self.holder_ids().contains(k),
            self.native_ids().len() == self.native_balances().len(),
            self.native_ids().no_duplicates(),
            forall|i: int|
                0 <= i < self.native_ids().len() ==> self@.native_free.dom().contains(
                    #[trigger] self.native_ids()[i],
                ) && self@.native_free[self.native_ids()[i]] == self.native_balances()[i],
            forall|k: AccountId|
                self@.native_free.dom().contains(k) ==> self.native_ids().contains(k),
    {
        assert forall|i: int| 0 <= i < self.holder_ids().len() implies self@.balances.dom().contains(
            #[trigger] self.holder_ids()[i],
        ) && self@.balances[self.holder_ids()[i]] == self.holder_balances()[i] by {
            self.balances.lemma_position(i);
        }
        assert forall|i: int| 0 <= i < self.native_ids().len() implies self@.native_free.dom().contains(
            #[trigger] self.native_ids()[i],
        ) && self@.native_free[self.native_ids()[i]] == self.native_balances()[i] by {
            self.native_free.lemma_position(i);
        }
    }

    /// No balance is negative, and none exceeds the total of its token and type.
    pub proof fn lemma_balance_within_total(&self, who: AccountId, token: Seq<u8>, ty: AssetType)
        requires
            self.wf(),
        ensures
            0 <= self@.balance(who, token, ty) <= self@.total(token, ty),
    {
        Balances::lemma_get_with();
        self.lemma_conservation(token, ty);
        if token == pcx() && ty == AssetType::Free {
            lemma_sum_native_nonneg(self.native_free.values());
            if self.native_free@.dom().contains(who) {
                let p = self.native_free.position(who);
                self.native_free.lemma_position(p);
                lemma_sum_native_bounds(self.native_free.values(), p);
            }
        } else {
            lemma_sum_held_nonneg(self.balances.ids(), self.balances.values(), token, ty);
            if self.balances@.dom().contains((who, token)) {
                let p = self.balances.position((who, token));
                self.balances.lemma_position(p);
                lemma_sum_held_bounds(self.balances.ids(), self.balances.values(), p, token, ty);
            }
        }
    }

    /// The state of an empty store at block `block_number`.
    pub open spec fn new_state(block_number: u64) -> LedgerState {
        LedgerState {
            infos: Map::empty(),
            listed: Seq::empty(),
            balances: Map::empty(),
            totals: Map::empty(),
            native_free: Map::empty(),
            total_issuance: 0,
            block_number,
            events: Seq::empty(),
        }
    }

    /// What conservation rules out: a move never fails for want of a total, since the total
    /// of a type is never less than what one holder has of it.
    pub proof fn lemma_total_covers_move(
        &self,
        token: Seq<u8>,
        from: AccountId,
        from_type: AssetType,
        to: AccountId,
        to_type: AssetType,
        value: Balance,
        check: bool,
    )
        requires
            self.wf(),
        ensures
            self@.move_verdict(token, from, from_type, to, to_type, value, check) != Err::<
                (),
                AssetErr,
            >(AssetErr::TotalAssetNotEnough),
    {
        self.lemma_balance_within_total(from, token, from_type);
    }

    /// An empty store at block `block_number`.
    pub fn new(block_number: u64) -> (m: Module)
        ensures
            m.wf(),
            m@ == Module::new_state(block_number),
    {
        let m = Module {
            asset_info: Table::new(),
            asset_list: Vec::new(),
            balances: Table::new(),
            totals: Table::new(),
            native_free: Table::new(),
            total_issuance: 0,
            block_number,
            events: Vec::new(),
        };
        proof {
            Balances::lemma_get_with();
            assert(m@.infos =~= Map::empty());
            assert(m@.listed =~= Seq::empty());
            assert(m@.events =~= Seq::empty());
            assert forall|t: Seq<u8>, y: AssetType| (#[trigger] m@.stored_total(t).spec_get(y)) == 0 by {}
        }
        m
    }

    /// Moves on to the block `block_number`.
    pub fn set_block_number(&mut self, block_number: u64)
        requires
            old(self).wf(),
        ensures
            final(self).wf(),
            final(self)@ == (LedgerState { block_number, ..old(self)@ }),
            forall|t: Seq<u8>, y: AssetType| final(self).held(t, y) == old(self).held(t, y),
    {
        self.block_number = block_number;
        proof {
            assert forall|t: Seq<u8>, y: AssetType| (#[trigger] self@.stored_total(t).spec_get(y)) == old(
                self,
            )@.stored_total(t).spec_get(y) by {}
        }
    }

    fn holding(&self, who: &AccountId, token: &Token) -> (b: Balances)
        requires
            self.tables_wf(),
        ensures
            b == self@.holding(*who, token@),
    {
        let key = HolderKey { who: *who, token: bytes_clone(token) };
        match self.balances.get(&key) {
            Some(b) => *b,
            None => Balances::zero(),
        }
    }

    fn native_balance(&self, who: &AccountId) -> (b: Balance)
        requires
            self.tables_wf(),
        ensures
            b == self@.native_balance(*who),
    {
        match self.native_free.get(who) {
            Some(b) => *b,
            None => 0,
        }
    }

    fn stored_total(&self, token: &Token) -> (b: Balances)
        requires
            self.tables_wf(),
        ensures
            b == self@.stored_total(token@),
    {
        match self.totals.get(token) {
            Some(b) => *b,
            None => Balances::zero(),
        }
    }

    /// Balance of type `type_` that `who` holds of `token`.
    pub fn asset_balance(&self, who: &AccountId, token: &Token, type_: AssetType) -> (b: Balance)
        requires
            self.wf(),
        ensures
            b == self@.balance(*who, token@, type_),
    {
        self.balance_unchecked(who, token, type_)
    }

    fn balance_unchecked(&self, who: &AccountId, token: &Token, type_: AssetType) -> (b: Balance)
        requires
            self.tables_wf(),
        ensures
            b == self@.balance(*who, token@, type_),
    {
        if is_pcx(token) && type_ == AssetType::Free {
            self.native_balance(who)
        } else {
            self.holding(who, token).get(type_)
        }
    }

    /// Free balance that `who` holds of `token`.
    pub fn free_balance(&self, who: &AccountId, token: &Token) -> (b: Balance)
        requires
            self.wf(),
        ensures
            b == self@.balance(*who, token@, AssetType::Free),
    {
        self.asset_balance(who, token, AssetType::Free)
    }

    /// Total of type `type_` of `token`.
    pub fn total_asset_balance(&self, token: &Token, type_: AssetType) -> (b: Balance)
        requires
            self.wf(),
        ensures
            b == self@.total(token@, type_),
    {
        if is_pcx(token) && type_ == AssetType::Free {
            let stored = self.stored_total(token);
            proof {
                lemma_sum_native_nonneg(self.native_free.values());
            }
            let reserved: u64 = stored.reserved_staking + stored.reserved_staking_revocation
                + stored.reserved_withdrawal + stored.reserved_dex_spot + stored.reserved_dex_future;
            self.total_issuance - reserved
        } else {
            self.stored_total(token).get(type_)
        }
    }

    /// Every balance that `who` holds of `token`, by type.
    pub fn balance_of(&self, who: &AccountId, token: &Token) -> (b: Balances)
        requires
            self.wf(),
        ensures
            b == self@.balances_of(*who, token@),
            forall|y: AssetType| b.spec_get(y) == self@.balance(*who, token@, y),
    {
        let stored = self.holding(who, token);
        proof {
            Balances::lemma_get_with();
        }
        if is_pcx(token) {
            stored.with(AssetType::Free, self.native_balance(who))
        } else {
            stored
        }
    }

    /// Sum of the balances of every type that `who` holds of `token`.
    pub fn all_type_balance_of(&self, who: &AccountId, token: &Token) -> (b: u128)
        requires
            self.wf(),
        ensures
            b == self@.balances_of(*who, token@).sum(),
    {
        self.balance_of(who, token).total()
    }

    /// Sum of the totals of every type of `token`.
    pub fn all_type_balance(&self, token: &Token) -> (b: u128)
        requires
            self.wf(),
        ensures
            token@ == pcx() ==> b == self@.total_issuance,
            token@ != pcx() ==> b == self@.stored_total(token@).sum(),
    {
        if is_pcx(token) {
            self.total_issuance as u128
        } else {
            self.stored_total(token).total()
        }
    }

    /// Refuses the free type.
    pub fn should_not_free_type(type_: AssetType) -> (r: Result<(), &'static str>)
        ensures
            r == if type_ == AssetType::Free {
                Err::<(), &'static str>("should not be free type here")
            } else {
                Ok(())
            },
    {
        if type_ == AssetType::Free {
            return Err("should not be free type here");
        }
        Ok(())
    }

    /// Refuses the native token.
    pub fn should_not_chainx(token: &Token) -> (r: Result<(), &'static str>)
        ensures
            r == if token@ == pcx() {
                Err::<(), &'static str>("should not use chainx token here")
            } else {
                Ok(())
            },
    {
        if is_pcx(token) {
            return Err("should not use chainx token here");
        }
        Ok(())
    }

    /// Whether `token` may be used: well formed, registered and not revoked.
    pub fn is_valid_asset(&self, token: &Token) -> (r: Result<(), &'static str>)
        requires
            self.wf(),
        ensures
            r == self@.asset_verdict(token@),
    {
        self.asset_verdict(token)
    }

    fn asset_verdict(&self, token: &Token) -> (r: Result<(), &'static str>)
        requires
            self.tables_wf(),
        ensures
            r == self@.asset_verdict(token@),
    {
        let t = is_valid_token(token.as_slice());
        if t.is_err() {
            return t;
        }
        match self.asset_info.get(token) {
            Some(info) => {
                if info.valid {
                    Ok(())
                } else {
                    Err("not a valid token")
                }
            },
            None => Err("not a registered token"),
        }
    }
}


impl LedgerState {
    /// Verdict on issuing `value` of `token` to `who`.
    pub open spec fn issue_verdict(self, token: Seq<u8>, who: AccountId, value: Balance) -> Result<
        (),
        &'static str,
    > {
        if token != pcx() && self.asset_verdict(token).is_err() {
            self.asset_verdict(token)
        } else if self.balance(who, token, AssetType::Free) + value > u64::MAX {
            Err("free balance too high to issue")
        } else if token == pcx() && self.total_issuance + value > u64::MAX {
            Err("total free balance too high to issue")
        } else if token != pcx() && self.total(token, AssetType::Free) + value > u64::MAX {
            Err("total free balance too high to issue")
        } else {
            Ok(())
        }
    }

    /// The state after `value` of `token` was issued to `who`.
    pub open spec fn issued(self, token: Seq<u8>, who: AccountId, value: Balance) -> LedgerState {
        let credited = self.with_total(
            token,
            AssetType::Free,
            (self.total(token, AssetType::Free) + value) as Balance,
        ).with_free_balance_creating(
            who,
            token,
            (self.balance(who, token, AssetType::Free) + value) as Balance,
        );
        (if token == pcx() {
            LedgerState { total_issuance: (self.total_issuance + value) as Balance, ..credited }
        } else {
            credited
        }).with_event(EventView::Issue(token, who, value))
    }

    /// Verdict on destroying `value` of `token` out of what `who` has reserved for withdrawal.
    pub open spec fn destroy_verdict(self, token: Seq<u8>, who: AccountId, value: Balance) -> Result<
        (),
        &'static str,
    > {
        if token == pcx() {
            Err("should not use chainx token here")
        } else if self.asset_verdict(token).is_err() {
            self.asset_verdict(token)
        } else if self.balance(who, token, AssetType::ReservedWithdrawal) < value {
            Err("reserved balance too low to destroy")
        } else if self.total(token, AssetType::ReservedWithdrawal) < value {
            Err("total reserved balance too low to destroy")
        } else {
            Ok(())
        }
    }

    /// The state after `value` of `token` was destroyed out of what `who` had reserved for
    /// withdrawal.
    pub open spec fn destroyed(self, token: Seq<u8>, who: AccountId, value: Balance) -> LedgerState {
        self.with_total(
            token,
            AssetType::ReservedWithdrawal,
            (self.total(token, AssetType::ReservedWithdrawal) - value) as Balance,
        ).with_balance(
            who,
            token,
            AssetType::ReservedWithdrawal,
            (self.balance(who, token, AssetType::ReservedWithdrawal) - value) as Balance,
        ).with_event(EventView::Destory(token, who, value))
    }

    /// Whether a move is one that changes nothing: same account and type, or nothing to move.
    pub open spec fn move_is_noop(
        from: AccountId,
        from_type: AssetType,
        to: AccountId,
        to_type: AssetType,
        value: Balance,
    ) -> bool {
        (from == to && from_type == to_type) || value == 0
    }

    /// Verdict on moving `value` of `token` from `from`'s balance of type `from_type` to
    /// `to`'s balance of type `to_type`. The checks are made in this order.
    pub open spec fn move_verdict(
        self,
        token: Seq<u8>,
        from: AccountId,
        from_type: AssetType,
        to: AccountId,
        to_type: AssetType,
        value: Balance,
        check: bool,
    ) -> Result<(), AssetErr> {
        if Self::move_is_noop(from, from_type, to, to_type, value) {
            Ok(())
        } else if check && self.asset_verdict(token).is_err() {
            Err(AssetErr::InvalidToken)
        } else if self.balance(from, token, from_type) < value {
            Err(AssetErr::NotEnough)
        } else if self.balance(to, token, to_type) + value > u64::MAX {
            Err(AssetErr::OverFlow)
        } else if from_type != to_type && self.total(token, from_type) < value {
            Err(AssetErr::TotalAssetNotEnough)
        } else if from_type != to_type && self.total(token, to_type) + value > u64::MAX {
            Err(AssetErr::TotalAssetOverFlow)
        } else {
            Ok(())
        }
    }

    /// The state after a move that passed every check.
    pub open spec fn moved(
        self,
        token: Seq<u8>,
        from: AccountId,
        from_type: AssetType,
        to: AccountId,
        to_type: AssetType,
        value: Balance,
    ) -> LedgerState {
        if Self::move_is_noop(from, from_type, to, to_type, value) {
            self
        } else {
            let new_from = (self.balance(from, token, from_type) - value) as Balance;
            let new_to = (self.balance(to, token, to_type) + value) as Balance;
            let totalled = if from_type != to_type {
                self.with_total(
                    token,
                    from_type,
                    (self.total(token, from_type) - value) as Balance,
                ).with_total(token, to_type, (self.total(token, to_type) + value) as Balance)
            } else {
                self
            };
            let debited = totalled.with_balance(from, token, from_type, new_from);
            (if to_type == AssetType::Free {
                debited.with_free_balance_creating(to, token, new_to)
            } else {
                debited.with_balance(to, token, to_type, new_to)
            }).with_event(EventView::Move(token, from, from_type, to, to_type, value))
        }
    }
}

impl Module {
    /// Adds `event` to what happened.
    fn deposit_event(&mut self, event: Event)
        ensures
            final(self)@ == old(self)@.with_event(event@),
            final(self).asset_info == old(self).asset_info,
            final(self).asset_list == old(self).asset_list,
            final(self).balances == old(self).balances,
            final(self).totals == old(self).totals,
            final(self).native_free == old(self).native_free,
            final(self).total_issuance == old(self).total_issuance,
            old(self).tables_wf() ==> final(self).tables_wf(),
            old(self).wf() ==> final(self).wf(),
    {
        let ghost before = self.events@;
        self.events.push(event);
        proof {
            assert(events_view(self.events@) =~= events_view(before).push(event@));
            assert forall|t: Seq<u8>, y: AssetType| (#[trigger] self@.stored_total(t).spec_get(y)) == old(
                self,
            )@.stored_total(t).spec_get(y) by {}
        }
    }

    /// Hands out what happened since this was last asked for, oldest first.
    pub fn take_events(&mut self) -> (events: Vec<Event>)
        requires
            old(self).wf(),
        ensures
            final(self).wf(),
            events_view(events@) == old(self)@.events,
            final(self)@ == (LedgerState { events: Seq::empty(), ..old(self)@ }),
            forall|t: Seq<u8>, y: AssetType| final(self).held(t, y) == old(self).held(t, y),
    {
        let mut events: Vec<Event> = Vec::new();
        std::mem::swap(&mut events, &mut self.events);
        proof {
            assert(events_view(self.events@) =~= Seq::<EventView>::empty());
            assert forall|t: Seq<u8>, y: AssetType| (#[trigger] self@.stored_total(t).spec_get(y)) == old(
                self,
            )@.stored_total(t).spec_get(y) by {}
        }
        events
    }

    fn set_holding(&mut self, who: &AccountId, token: &Token, ty: AssetType, value: Balance)
        requires
            old(self).tables_wf(),
            !(token@ == pcx() && ty == AssetType::Free),
        ensures
            final(self).tables_wf(),
            final(self)@ == old(self)@.with_balance(*who, token@, ty, value),
            final(self).native_free == old(self).native_free,
            final(self).total_issuance == old(self).total_issuance,
            forall|t: Seq<u8>, y: AssetType|
                #[trigger] sum_held(final(self).balances.ids(), final(self).balances.values(), t, y)
                    == sum_held(old(self).balances.ids(), old(self).balances.values(), t, y) + if t
                    == token@ && y == ty {
                    value - old(self)@.balance(*who, token@, ty)
                } else {
                    0
                },
    {
        let key = HolderKey { who: *who, token: bytes_clone(token) };
        let stored = self.holding(who, token);
        let updated = stored.with(ty, value);
        let ghost before = *self;
        self.balances.insert(&key, updated);
        proof {
            Balances::lemma_get_with();
            let ids = before.balances.ids();
            let vals = before.balances.values();
            assert forall|t: Seq<u8>, y: AssetType|
                #[trigger] sum_held(self.balances.ids(), self.balances.values(), t, y) == sum_held(
                    ids,
                    vals,
                    t,
                    y,
                ) + if t == token@ && y == ty {
                    value - before@.balance(*who, token@, ty)
                } else {
                    0
                } by {
                if before.balances.contains(key.id()) {
                    let p = before.balances.position(key.id());
                    before.balances.lemma_position(p);
                    lemma_sum_held_update(ids, vals, p, updated, t, y);
                } else {
                    lemma_sum_held_push(ids, vals, key.id(), updated, t, y);
                }
            }
        }
    }

    fn set_native(&mut self, who: &AccountId, value: Balance)
        requires
            old(self).tables_wf(),
        ensures
            final(self).tables_wf(),
            final(self)@ == (LedgerState {
                native_free: old(self)@.native_free.insert(*who, value),
                ..old(self)@
            }),
            final(self).balances == old(self).balances,
            final(self).total_issuance == old(self).total_issuance,
            sum_native(final(self).native_free.values()) == sum_native(
                old(self).native_free.values(),
            ) + value - old(self)@.native_balance(*who),
    {
        let ghost before = *self;
        self.native_free.insert(who, value);
        proof {
            let vals = before.native_free.values();
            if before.native_free.contains(*who) {
                let p = before.native_free.position(*who);
                before.native_free.lemma_position(p);
                lemma_sum_native_update(vals, p, value);
            } else {
                lemma_sum_native_push(vals, value);
            }
        }
    }

    fn set_asset_balance(&mut self, who: &AccountId, token: &Token, ty: AssetType, value: Balance)
        requires
            old(self).tables_wf(),
        ensures
            final(self).tables_wf(),
            final(self)@ == old(self)@.with_balance(*who, token@, ty, value),
            final(self).total_issuance == old(self).total_issuance,
            forall|t: Seq<u8>, y: AssetType|
                #[trigger] sum_held(final(self).balances.ids(), final(self).balances.values(), t, y)
                    == sum_held(old(self).balances.ids(), old(self).balances.values(), t, y) + if t
                    == token@ && y == ty && !(t == pcx() && y == AssetType::Free) {
                    value - old(self)@.balance(*who, token@, ty)
                } else {
                    0
                },
            sum_native(final(self).native_free.values()) == sum_native(
                old(self).native_free.values(),
            ) + if token@ == pcx() && ty == AssetType::Free {
                value - old(self)@.balance(*who, token@, ty)
            } else {
                0
            },
    {
        if is_pcx(token) && ty == AssetType::Free {
            self.set_native(who, value);
        } else {
            self.set_holding(who, token, ty, value);
        }
    }

    fn set_free_balance_creating(&mut self, who: &AccountId, token: &Token, value: Balance)
        requires
            old(self).tables_wf(),
        ensures
            final(self).tables_wf(),
            final(self)@ == old(self)@.with_free_balance_creating(*who, token@, value),
            final(self).total_issuance == old(self).total_issuance,
            forall|t: Seq<u8>, y: AssetType|
                #[trigger] sum_held(final(self).balances.ids(), final(self).balances.values(), t, y)
                    == sum_held(old(self).balances.ids(), old(self).balances.values(), t, y) + if t
                    == token@ && y == AssetType::Free && t != pcx() {
                    value - old(self)@.balance(*who, token@, AssetType::Free)
                } else {
                    0
                },
            sum_native(final(self).native_free.values()) == sum_native(
                old(self).native_free.values(),
            ) + if token@ == pcx() {
                value - old(self)@.balance(*who, token@, AssetType::Free)
            } else {
                0
            },
    {
        if !is_pcx(token) && !self.native_free.contains_key(who) {
            self.set_native(who, 0);
        }
        self.set_asset_balance(who, token, AssetType::Free, value);
    }

    fn set_total_asset_balance(&mut self, token: &Token, ty: AssetType, value: Balance)
        requires
            old(self).tables_wf(),
        ensures
            final(self).tables_wf(),
            final(self)@ == old(self)@.with_total(token@, ty, value),
            final(self).balances == old(self).balances,
            final(self).native_free == old(self).native_free,
            final(self).total_issuance == old(self).total_issuance,
    {
        if is_pcx(token) && ty == AssetType::Free {
        } else {
            let stored = self.stored_total(token);
            self.totals.insert(token, stored.with(ty, value));
        }
    }

    /// Creates `value` of `token` as free balance of `who`.
    pub fn issue(&mut self, token: &Token, who: &AccountId, value: Balance) -> (r: Result<
        (),
        &'static str,
    >)
        requires
            old(self).wf(),
        ensures
            final(self).wf(),
            r == old(self)@.issue_verdict(token@, *who, value),
            r.is_ok() ==> final(self)@ == old(self)@.issued(token@, *who, value),
            r.is_err() ==> *final(self) == *old(self),
    {
        proof {
            Balances::lemma_get_with();
        }
        let native = is_pcx(token);
        if !native {
            let v = self.asset_verdict(token);
            if v.is_err() {
                return v;
            }
        }
        let total_free = self.total_asset_balance(token, AssetType::Free);
        let free = self.asset_balance(who, token, AssetType::Free);
        let new_free = match free.checked_add(value) {
            Some(b) => b,
            None => {
                return Err("free balance too high to issue");
            },
        };
        if native {
            let new_issuance = match self.total_issuance.checked_add(value) {
                Some(b) => b,
                None => {
                    return Err("total free balance too high to issue");
                },
            };
            self.set_free_balance_creating(who, token, new_free);
            self.total_issuance = new_issuance;
            self.deposit_event(Event::Issue(bytes_clone(token), *who, value));
            proof {
                assert(self@ == old(self)@.issued(token@, *who, value));
                assert forall|t: Seq<u8>, y: AssetType|
                    !(t == pcx() && y == AssetType::Free) implies (#[trigger] self@.stored_total(
                    t,
                ).spec_get(y)) == sum_held(self.balances.ids(), self.balances.values(), t, y) by {
                    assert(old(self)@.stored_total(t).spec_get(y) == sum_held(
                        old(self).balances.ids(),
                        old(self).balances.values(),
                        t,
                        y,
                    ));
                }
            }
            return Ok(());
        }
        let new_total_free = match total_free.checked_add(value) {
            Some(b) => b,
            None => {
                return Err("total free balance too high to issue");
            },
        };
        self.set_total_asset_balance(token, AssetType::Free, new_total_free);
        self.set_free_balance_creating(who, token, new_free);
        self.deposit_event(Event::Issue(bytes_clone(token), *who, value));
        proof {
            assert(self@ == old(self)@.issued(token@, *who, value));
            assert forall|t: Seq<u8>, y: AssetType|
                !(t == pcx() && y == AssetType::Free) implies (#[trigger] self@.stored_total(
                t,
            ).spec_get(y)) == sum_held(self.balances.ids(), self.balances.values(), t, y) by {
                assert(old(self)@.stored_total(t).spec_get(y) == sum_held(
                    old(self).balances.ids(),
                    old(self).balances.values(),
                    t,
                    y,
                ));
            }
        }
        Ok(())
    }

    /// Destroys `value` of `token` out of what `who` has reserved for withdrawal.
    pub fn destroy(&mut self, token: &Token, who: &AccountId, value: Balance) -> (r: Result<
        (),
        &'static str,
    >)
        requires
            old(self).wf(),
        ensures
            final(self).wf(),
            r == old(self)@.destroy_verdict(token@, *who, value),
            r.is_ok() ==> final(self)@ == old(self)@.destroyed(token@, *who, value),
            r.is_err() ==> *final(self) == *old(self),
    {
        proof {
            Balances::lemma_get_with();
        }
        let c = Self::should_not_chainx(token);
        if c.is_err() {
            return c;
        }
        let v = self.asset_verdict(token);
        if v.is_err() {
            return v;
        }
        let type_ = AssetType::ReservedWithdrawal;
        let total_reserved = self.total_asset_balance(token, type_);
        let reserved = self.asset_balance(who, token, type_);
        let new_reserved = match reserved.checked_sub(value) {
            Some(b) => b,
            None => {
                return Err("reserved balance too low to destroy");
            },
        };
        let new_total_reserved = match total_reserved.checked_sub(value) {
            Some(b) => b,
            None => {
                return Err("total reserved balance too low to destroy");
            },
        };
        self.set_total_asset_balance(token, type_, new_total_reserved);
        self.set_asset_balance(who, token, type_, new_reserved);
        self.deposit_event(Event::Destory(bytes_clone(token), *who, value));
        proof {
            assert forall|t: Seq<u8>, y: AssetType|
                !(t == pcx() && y == AssetType::Free) implies (#[trigger] self@.stored_total(
                t,
            ).spec_get(y)) == sum_held(self.balances.ids(), self.balances.values(), t, y) by {
                assert(old(self)@.stored_total(t).spec_get(y) == sum_held(
                    old(self).balances.ids(),
                    old(self).balances.values(),
                    t,
                    y,
                ));
            }
        }
        Ok(())
    }

    /// Moves `value` of `token` from `from`'s balance of type `from_type` to `to`'s balance of
    /// type `to_type`, after checking that `token` may be used.
    pub fn move_balance(
        &mut self,
        token: &Token,
        from: &AccountId,
        from_type: AssetType,
        to: &AccountId,
        to_type: AssetType,
        value: Balance,
    ) -> (r: Result<(), AssetErr>)
        requires
            old(self).wf(),
        ensures
            final(self).wf(),
            r == old(self)@.move_verdict(token@, *from, from_type, *to, to_type, value, true),
            r.is_ok() ==> final(self)@ == old(self)@.moved(
                token@,
                *from,
                from_type,
                *to,
                to_type,
                value,
            ),
            r.is_err() ==> *final(self) == *old(self),
    {
        self.move_balance_with_checkflag(token, from, from_type, to, to_type, value, true)
    }

    /// Moves `value` of `token` from `from`'s balance of type `from_type` to `to`'s balance of
    /// type `to_type`. Nothing is written unless every check has passed.
    pub fn move_balance_with_checkflag(
        &mut self,
        token: &Token,
        from: &AccountId,
        from_type: AssetType,
        to: &AccountId,
        to_type: AssetType,
        value: Balance,
        check: bool,
    ) -> (r: Result<(), AssetErr>)
        requires
            old(self).wf(),
        ensures
            final(self).wf(),
            r == old(self)@.move_verdict(token@, *from, from_type, *to, to_type, value, check),
            r.is_ok() ==> final(self)@ == old(self)@.moved(
                token@,
                *from,
                from_type,
                *to,
                to_type,
                value,
            ),
            r.is_err() ==> *final(self) == *old(self),
    {
        proof {
            Balances::lemma_get_with();
        }
        if *from == *to && from_type == to_type {
            return Ok(());
        }
        if value == 0 {
            return Ok(());
        }
        if check {
            if self.asset_verdict(token).is_err() {
                return Err(AssetErr::InvalidToken);
            }
        }
        let from_balance = self.asset_balance(from, token, from_type);
        let to_balance = self.asset_balance(to, token, to_type);
        let new_from_balance = match from_balance.checked_sub(value) {
            Some(b) => b,
            None => {
                return Err(AssetErr::NotEnough);
            },
        };
        let new_to_balance = match to_balance.checked_add(value) {
            Some(b) => b,
            None => {
                return Err(AssetErr::OverFlow);
            },
        };
        if from_type != to_type {
            let total_from_balance = self.total_asset_balance(token, from_type);
            let total_to_balance = self.total_asset_balance(token, to_type);
            let new_total_from_balance = match total_from_balance.checked_sub(value) {
                Some(b) => b,
                None => {
                    return Err(AssetErr::TotalAssetNotEnough);
                },
            };
            let new_total_to_balance = match total_to_balance.checked_add(value) {
                Some(b) => b,
                None => {
                    return Err(AssetErr::TotalAssetOverFlow);
                },
            };
            self.set_total_asset_balance(token, from_type, new_total_from_balance);
            self.set_total_asset_balance(token, to_type, new_total_to_balance);
        }
        let ghost totalled = *self;
        self.set_asset_balance(from, token, from_type, new_from_balance);
        let ghost debited = *self;
        if to_type == AssetType::Free {
            self.set_free_balance_creating(to, token, new_to_balance);
        } else {
            self.set_asset_balance(to, token, to_type, new_to_balance);
        }
        self.deposit_event(Event::Move(bytes_clone(token), *from, from_type, *to, to_type, value));
        proof {
            assert(debited@.balance(*to, token@, to_type) == old(self)@.balance(*to, token@, to_type));
            assert forall|t: Seq<u8>, y: AssetType|
                !(t == pcx() && y == AssetType::Free) implies (#[trigger] self@.stored_total(
                t,
            ).spec_get(y)) == sum_held(self.balances.ids(), self.balances.values(), t, y) by {
                assert(old(self)@.stored_total(t).spec_get(y) == sum_held(
                    old(self).balances.ids(),
                    old(self).balances.values(),
                    t,
                    y,
                ));
                assert(sum_held(debited.balances.ids(), debited.balances.values(), t, y) == sum_held(
                    totalled.balances.ids(),
                    totalled.balances.values(),
                    t,
                    y,
                ) + if t == token@ && y == from_type && !(t == pcx() && y == AssetType::Free) {
                    new_from_balance - totalled@.balance(*from, token@, from_type)
                } else {
                    0
                });
            }
        }
        Ok(())
    }

    /// Moves `value` of `token` from the free balance of `from` to the free balance of `to`.
    pub fn move_free_balance(
        &mut self,
        token: &Token,
        from: &AccountId,
        to: &AccountId,
        value: Balance,
    ) -> (r: Result<(), AssetErr>)
        requires
            old(self).wf(),
        ensures
            final(self).wf(),
            r == old(self)@.move_verdict(
                token@,
                *from,
                AssetType::Free,
                *to,
                AssetType::Free,
                value,
                true,
            ),
            r.is_ok() ==> final(self)@ == old(self)@.moved(
                token@,
                *from,
                AssetType::Free,
                *to,
                AssetType::Free,
                value,
            ),
            r.is_err() ==> *final(self) == *old(self),
    {
        self.move_balance(token, from, AssetType::Free, to, AssetType::Free, value)
    }
}


/// Byte strings of `tokens`.
pub open spec fn tokens_view(tokens: Seq<Token>) -> Seq<Seq<u8>> {
    tokens.map_values(|t: Token| t@)
}

impl LedgerState {
    /// Whether an asset is registered under `token`, revoked or not.
    pub open spec fn is_registered(self, token: Seq<u8>) -> bool {
        self.infos.dom().contains(token)
    }

    /// Whether an asset is registered under `token` and has not been revoked.
    pub open spec fn is_usable(self, token: Seq<u8>) -> bool {
        self.infos.dom().contains(token) && self.infos[token].valid
    }

    /// Registered tokens of `chain`, in registration order.
    pub open spec fn asset_list(self, chain: Chain) -> Seq<Seq<u8>> {
        self.listed.filter(|t: Seq<u8>| self.is_registered(t) && self.infos[t].asset.chain == chain)
    }

    /// Registered tokens, chain by chain.
    pub open spec fn assets(self) -> Seq<Seq<u8>> {
        self.asset_list(Chain::ChainX) + self.asset_list(Chain::Bitcoin) + self.asset_list(
            Chain::Ethereum,
        )
    }

    /// Registered tokens that have not been revoked, chain by chain.
    pub open spec fn valid_assets(self) -> Seq<Seq<u8>> {
        self.assets().filter(|t: Seq<u8>| self.is_usable(t))
    }

    /// Whether `who` has an entry for `token`.
    pub open spec fn has_asset(self, who: AccountId, token: Seq<u8>) -> bool {
        if token == pcx() {
            self.native_free.dom().contains(who)
        } else {
            self.balances.dom().contains((who, token))
        }
    }

    /// Verdict on registering `asset`.
    pub open spec fn register_verdict(self, asset: AssetView) -> Result<(), &'static str> {
        if asset.verdict().is_err() {
            asset.verdict()
        } else if self.is_registered(asset.token) {
            Err("already has this token")
        } else {
            Ok(())
        }
    }

    /// The state after `asset` was registered, revoked at once unless `is_online`.
    pub open spec fn registered(self, asset: AssetView, is_online: bool, is_psedu_intention: bool) -> LedgerState {
        let listed = (LedgerState {
            infos: self.infos.insert(
                asset.token,
                AssetInfoView { asset, valid: true, registered_at: self.block_number },
            ),
            listed: self.listed.push(asset.token),
            ..self
        }).with_event(EventView::Register(asset.token, is_psedu_intention));
        if is_online {
            listed
        } else {
            listed.revoked(asset.token)
        }
    }

    /// Verdict on revoking `token`.
    pub open spec fn revoke_verdict(self, token: Seq<u8>) -> Result<(), &'static str> {
        if token_verdict(token).is_err() {
            token_verdict(token)
        } else if !self.is_registered(token) {
            Err("this token dose not register yet or is invalid")
        } else {
            Ok(())
        }
    }

    /// The state after `token` was revoked: it stays registered, and balances stay as they are.
    pub open spec fn revoked(self, token: Seq<u8>) -> LedgerState {
        (LedgerState {
            infos: self.infos.insert(token, AssetInfoView { valid: false, ..self.infos[token] }),
            ..self
        }).with_event(EventView::Revoke(token))
    }
}

impl Module {
    /// Registered tokens of `chain`, in registration order.
    pub fn asset_list(&self, chain: Chain) -> (list: Vec<Token>)
        requires
            self.wf(),
        ensures
            tokens_view(list@) == self@.asset_list(chain),
    {
        let ghost pred = |t: Seq<u8>| self@.is_registered(t) && self@.infos[t].asset.chain == chain;
        let mut out: Vec<Token> = Vec::new();
        let mut i: usize = 0;
        proof {
            lemma_filter_empty(self@.listed, pred);
        }
        assert(tokens_view(out@) =~= Seq::<Seq<u8>>::empty());
        while i < self.asset_list.len()
            invariant
                self.wf(),
                i <= self.asset_list.len(),
                self@.listed.len() == self.asset_list.len(),
                pred == |t: Seq<u8>| self@.is_registered(t) && self@.infos[t].asset.chain == chain,
                tokens_view(out@) == self@.listed.take(i as int).filter(pred),
            decreases self.asset_list.len() - i,
        {
            let token = &self.asset_list[i];
            assert(self@.listed[i as int] == token@);
            assert(self@.listed.take(i + 1).drop_last() =~= self@.listed.take(i as int));
            let info = self.asset_info.get(token);
            let keep = match info {
                Some(info) => info.asset.chain() == chain,
                None => false,
            };
            assert(keep == pred(token@));
            proof {
                lemma_filter_step(self@.listed, pred, i as int);
            }
            if keep {
                let ghost before = out@;
                out.push(bytes_clone(token));
                assert(tokens_view(out@) =~= tokens_view(before).push(token@));
            }
            i += 1;
        }
        assert(self@.listed.take(self.asset_list.len() as int) =~= self@.listed);
        out
    }

    /// Registered tokens, chain by chain.
    pub fn assets(&self) -> (list: Vec<Token>)
        requires
            self.wf(),
        ensures
            tokens_view(list@) == self@.assets(),
    {
        let mut out = self.asset_list(Chain::ChainX);
        let mut b = self.asset_list(Chain::Bitcoin);
        let mut e = self.asset_list(Chain::Ethereum);
        let ghost o = out@;
        let ghost bb = b@;
        let ghost ee = e@;
        out.append(&mut b);
        out.append(&mut e);
        assert(tokens_view(out@) =~= tokens_view(o) + tokens_view(bb) + tokens_view(ee));
        out
    }

    /// Every registered asset with its validity, chain by chain.
    pub fn all_assets(&self) -> (list: Vec<(Asset, bool)>)
        requires
            self.wf(),
        ensures
            list@.len() == self@.assets().len(),
            forall|i: int|
                0 <= i < list@.len() ==> self@.is_registered(#[trigger] self@.assets()[i])
                    && list@[i].0@ == self@.infos[self@.assets()[i]].asset && list@[i].1
                    == self@.infos[self@.assets()[i]].valid,
    {
        let tokens = self.assets();
        let mut out: Vec<(Asset, bool)> = Vec::new();
        let mut i: usize = 0;
        assert(tokens_view(tokens@).len() == tokens@.len());
        while i < tokens.len()
            invariant
                self.wf(),
                i <= tokens.len(),
                tokens_view(tokens@) == self@.assets(),
                out@.len() == i,
                forall|j: int|
                    0 <= j < i ==> self@.is_registered(#[trigger] self@.assets()[j]) && out@[j].0@
                        == self@.infos[self@.assets()[j]].asset && out@[j].1
                        == self@.infos[self@.assets()[j]].valid,
            decreases tokens.len() - i,
        {
            assert(tokens_view(tokens@)[i as int] == tokens@[i as int]@);
            proof {
                self.lemma_assets_registered(i as int);
            }
            match self.asset_info.get(&tokens[i]) {
                Some(info) => {
                    out.push((info.asset.duplicate(), info.valid));
                },
                None => {
                    assert(false);
                },
            }
            i += 1;
        }
        out
    }

    /// Every token that is reported as an asset is registered.
    pub proof fn lemma_assets_registered(&self, i: int)
        requires
            self.wf(),
            0 <= i < self@.assets().len(),
        ensures
            self@.is_registered(self@.assets()[i]),
    {
        let s = self@;
        let t = s.assets()[i];
        let px = |t: Seq<u8>| s.is_registered(t) && s.infos[t].asset.chain == Chain::ChainX;
        let pb = |t: Seq<u8>| s.is_registered(t) && s.infos[t].asset.chain == Chain::Bitcoin;
        let pe = |t: Seq<u8>| s.is_registered(t) && s.infos[t].asset.chain == Chain::Ethereum;
        let a = s.listed.filter(px);
        let b = s.listed.filter(pb);
        let c = s.listed.filter(pe);
        if i < a.len() {
            s.listed.lemma_filter_pred(px, i);
        } else if i < a.len() + b.len() {
            s.listed.lemma_filter_pred(pb, i - a.len());
        } else {
            s.listed.lemma_filter_pred(pe, i - a.len() - b.len());
        }
    }

    /// Registered tokens that have not been revoked, chain by chain.
    pub fn valid_assets(&self) -> (list: Vec<Token>)
        requires
            self.wf(),
        ensures
            tokens_view(list@) == self@.valid_assets(),
    {
        let tokens = self.assets();
        let ghost all = self@.assets();
        let ghost pred = |t: Seq<u8>| self@.is_usable(t);
        let mut out: Vec<Token> = Vec::new();
        let mut i: usize = 0;
        proof {
            lemma_filter_empty(all, pred);
        }
        assert(tokens_view(out@) =~= Seq::<Seq<u8>>::empty());
        assert(tokens_view(tokens@).len() == tokens@.len());
        while i < tokens.len()
            invariant
                self.wf(),
                i <= tokens.len(),
                all == self@.assets(),
                tokens_view(tokens@) == all,
                pred == |t: Seq<u8>| self@.is_usable(t),
                tokens_view(out@) == all.take(i as int).filter(pred),
            decreases tokens.len() - i,
        {
            let token = &tokens[i];
            assert(tokens_view(tokens@)[i as int] == token@);
            assert(all.take(i + 1).drop_last() =~= all.take(i as int));
            let keep = match self.asset_info.get(token) {
                Some(info) => info.valid,
                None => false,
            };
            assert(keep == pred(token@));
            proof {
                lemma_filter_step(all, pred, i as int);
            }
            if keep {
                let ghost before = out@;
                out.push(bytes_clone(token));
                assert(tokens_view(out@) =~= tokens_view(before).push(token@));
            }
            i += 1;
        }
        assert(all.take(tokens.len() as int) =~= all);
        out
    }

    /// What `who` holds of each valid asset for which it has an entry.
    pub fn valid_assets_of(&self, who: &AccountId) -> (list: Vec<(Token, Balances)>)
        requires
            self.wf(),
        ensures
            list@.map_values(|e: (Token, Balances)| e.0@) == self@.valid_assets().filter(
                |t: Seq<u8>| self@.has_asset(*who, t),
            ),
            forall|i: int|
                0 <= i < list@.len() ==> (#[trigger] list@[i]).1 == self@.balances_of(
                    *who,
                    list@[i].0@,
                ),
    {
        let tokens = self.valid_assets();
        let ghost all = self@.valid_assets();
        let ghost pred = |t: Seq<u8>| self@.has_asset(*who, t);
        let ghost name = |e: (Token, Balances)| e.0@;
        let mut out: Vec<(Token, Balances)> = Vec::new();
        let mut i: usize = 0;
        proof {
            lemma_filter_empty(all, pred);
        }
        assert(out@.map_values(name) =~= Seq::<Seq<u8>>::empty());
        assert(tokens_view(tokens@).len() == tokens@.len());
        while i < tokens.len()
            invariant
                self.wf(),
                i <= tokens.len(),
                all == self@.valid_assets(),
                tokens_view(tokens@) == all,
                pred == |t: Seq<u8>| self@.has_asset(*who, t),
                name == |e: (Token, Balances)| e.0@,
                out@.map_values(name) == all.take(i as int).filter(pred),
                forall|j: int|
                    0 <= j < out@.len() ==> (#[trigger] out@[j]).1 == self@.balances_of(
                        *who,
                        out@[j].0@,
                    ),
            decreases tokens.len() - i,
        {
            let token = &tokens[i];
            assert(tokens_view(tokens@)[i as int] == token@);
            assert(all.take(i + 1).drop_last() =~= all.take(i as int));
            let has_asset = if is_pcx(token) {
                self.native_free.contains_key(who)
            } else {
                let key = HolderKey { who: *who, token: bytes_clone(token) };
                self.balances.contains_key(&key)
            };
            assert(has_asset == pred(token@));
            proof {
                lemma_filter_step(all, pred, i as int);
            }
            if has_asset {
                let map = self.balance_of(who, token);
                let ghost before = out@;
                out.push((bytes_clone(token), map));
                assert(out@.map_values(name) =~= before.map_values(name).push(token@));
            }
            i += 1;
        }
        assert(all.take(tokens.len() as int) =~= all);
        out
    }

    /// Whether an asset is registered under `token`, revoked or not.
    pub fn is_registered(&self, token: &Token) -> (r: bool)
        requires
            self.wf(),
        ensures
            r == self@.is_registered(token@),
    {
        self.asset_info.contains_key(token)
    }

    /// Whether `who` has an entry for `token`.
    pub fn has_asset(&self, who: &AccountId, token: &Token) -> (r: bool)
        requires
            self.wf(),
        ensures
            r == self@.has_asset(*who, token@),
    {
        if is_pcx(token) {
            self.native_free.contains_key(who)
        } else {
            let key = HolderKey { who: *who, token: bytes_clone(token) };
            self.balances.contains_key(&key)
        }
    }

    /// The asset registered under `token`, unless it has been revoked.
    pub fn get_asset(&self, token: &Token) -> (r: Result<Asset, &'static str>)
        requires
            self.wf(),
        ensures
            match r {
                Ok(asset) => self@.is_usable(token@) && asset@ == self@.infos[token@].asset,
                Err(e) => if self@.is_registered(token@) {
                    !self@.infos[token@].valid && e
                        == "this asset is invalid, maybe has been revoked."
                } else {
                    e == "this token asset not exist!"
                },
            },
    {
        match self.asset_info.get(token) {
            Some(info) => {
                if !info.valid {
                    return Err("this asset is invalid, maybe has been revoked.");
                }
                Ok(info.asset.duplicate())
            },
            None => Err("this token asset not exist!"),
        }
    }

    /// Registers `asset`. Unless `is_online`, the asset is revoked at once.
    /// `is_psedu_intention` says whether the asset takes part in mining as an intention of its
    /// own; it is told to those who watch.
    pub fn register_asset(&mut self, asset: Asset, is_online: bool, is_psedu_intention: bool) -> (r: Result<
        (),
        &'static str,
    >)
        requires
            old(self).wf(),
        ensures
            final(self).wf(),
            r == old(self)@.register_verdict(asset@),
            r.is_ok() ==> final(self)@ == old(self)@.registered(asset@, is_online, is_psedu_intention),
            r.is_err() ==> *final(self) == *old(self),
            forall|t: Seq<u8>, y: AssetType| final(self).held(t, y) == old(self).held(t, y),
    {
        let v = asset.is_valid();
        if v.is_err() {
            return v;
        }
        let token = asset.token();
        if self.asset_info.contains_key(&token) {
            return Err("already has this token");
        }
        let ghost av = asset@;
        let info = AssetInfo { asset, valid: true, registered_at: self.block_number };
        let ghost before = *self;
        self.asset_info.insert(&token, info);
        self.asset_list.push(bytes_clone(&token));
        proof {
            assert(self@.infos =~= before@.infos.insert(
                av.token,
                AssetInfoView { asset: av, valid: true, registered_at: before@.block_number },
            ));
            assert(self@.listed =~= before@.listed.push(av.token));
            assert forall|t: Seq<u8>, y: AssetType| (#[trigger] self@.stored_total(t).spec_get(y))
                == before@.stored_total(t).spec_get(y) by {}
        }
        self.deposit_event(Event::Register(bytes_clone(&token), is_psedu_intention));
        if !is_online {
            let _ = self.revoke_asset(&token);
        }
        Ok(())
    }

    /// Revokes `token`: it stays registered and its balances stay as they are, but it can no
    /// longer be issued or moved.
    pub fn revoke_asset(&mut self, token: &Token) -> (r: Result<(), &'static str>)
        requires
            old(self).wf(),
        ensures
            final(self).wf(),
            r == old(self)@.revoke_verdict(token@),
            r.is_ok() ==> final(self)@ == old(self)@.revoked(token@),
            r.is_err() ==> *final(self) == *old(self),
            forall|t: Seq<u8>, y: AssetType| final(self).held(t, y) == old(self).held(t, y),
    {
        let v = is_valid_token(token.as_slice());
        if v.is_err() {
            return v;
        }
        if !self.asset_info.contains_key(token) {
            return Err("this token dose not register yet or is invalid");
        }
        let ghost before = *self;
        match self.asset_info.remove(token) {
            Some(info) => {
                let revoked = AssetInfo {
                    asset: info.asset,
                    valid: false,
                    registered_at: info.registered_at,
                };
                self.asset_info.insert(token, revoked);
            },
            None => {},
        }
        proof {
            assert(self.asset_info@.dom() =~= before.asset_info@.dom());
            assert(self@.infos =~= before@.revoked(token@).infos);
            assert forall|t: Seq<u8>, y: AssetType| (#[trigger] self@.stored_total(t).spec_get(y))
                == before@.stored_total(t).spec_get(y) by {}
        }
        self.deposit_event(Event::Revoke(bytes_clone(token)));
        Ok(())
    }
}


impl LedgerState {
    /// What an issue changes: the free balance of the holder and the free total of the token
    /// rise by what is issued, and no other balance or total changes.
    pub proof fn lemma_issued(self, token: Seq<u8>, who: AccountId, value: Balance)
        requires
            self.issue_verdict(token, who, value).is_ok(),
        ensures
            self.issued(token, who, value).balance(who, token, AssetType::Free) == self.balance(
                who,
                token,
                AssetType::Free,
            ) + value,
            self.issued(token, who, value).total(token, AssetType::Free) == self.total(
                token,
                AssetType::Free,
            ) + value,
            forall|w: AccountId, t: Seq<u8>, y: AssetType|
                !(w == who && t == token && y == AssetType::Free) ==> #[trigger] self.issued(
                    token,
                    who,
                    value,
                ).balance(w, t, y) == self.balance(w, t, y),
            forall|t: Seq<u8>, y: AssetType|
                !(t == token && y == AssetType::Free) ==> #[trigger] self.issued(
                    token,
                    who,
                    value,
                ).total(t, y) == self.total(t, y),
    {
        Balances::lemma_get_with();
    }

    /// The state after an attempt to issue: as issued where the issue is accepted, unchanged
    /// where it is refused.
    pub open spec fn issue_attempt(self, token: Seq<u8>, who: AccountId, value: Balance) -> LedgerState {
        if self.issue_verdict(token, who, value).is_ok() {
            self.issued(token, who, value)
        } else {
            self
        }
    }

    /// The state after an attempt to destroy: as destroyed where that is accepted, unchanged
    /// where it is refused.
    pub open spec fn destroy_attempt(self, token: Seq<u8>, who: AccountId, value: Balance) -> LedgerState {
        if self.destroy_verdict(token, who, value).is_ok() {
            self.destroyed(token, who, value)
        } else {
            self
        }
    }
}


impl LedgerState {
    /// Verdict on setting the balance of type `ty` that `who` holds of `token` to `value`.
    /// The total of that type follows the balance, and so does the total issuance for the
    /// native token; the balance cannot be set where they would leave their range.
    pub open spec fn set_verdict(self, who: AccountId, token: Seq<u8>, ty: AssetType, value: Balance) -> Result<
        (),
        &'static str,
    > {
        let old_value = self.balance(who, token, ty);
        let derived = token == pcx() && ty == AssetType::Free;
        if value > old_value {
            if (token == pcx() && self.total_issuance + (value - old_value) > u64::MAX) || (!derived
                && self.stored_total(token).spec_get(ty) + (value - old_value) > u64::MAX) {
                Err("old total balance too high to add value")
            } else {
                Ok(())
            }
        } else {
            if (token == pcx() && self.total_issuance < old_value - value) || (!derived
                && self.stored_total(token).spec_get(ty) < old_value - value) {
                Err("old total balance too low to sub value")
            } else {
                Ok(())
            }
        }
    }

    /// The state after the balance of type `ty` that `who` holds of `token` was set to
    /// `value`. Nothing is written where the balance is `value` already.
    pub open spec fn set_applied(self, who: AccountId, token: Seq<u8>, ty: AssetType, value: Balance) -> LedgerState {
        let old_value = self.balance(who, token, ty);
        if value == old_value {
            self
        } else {
            let written = self.with_balance(who, token, ty, value).with_total(
                token,
                ty,
                (self.stored_total(token).spec_get(ty) + value - old_value) as Balance,
            );
            (if token == pcx() {
                LedgerState {
                    total_issuance: (self.total_issuance + value - old_value) as Balance,
                    ..written
                }
            } else {
                written
            }).with_event(EventView::SetBalance(token, who, ty, value))
        }
    }

    /// The state after the balances `entries` of `who` in `token` were set one after the
    /// other, or why one of them cannot be set, the first that cannot.
    pub open spec fn set_all(self, who: AccountId, token: Seq<u8>, entries: Seq<(AssetType, Balance)>) -> Result<
        LedgerState,
        &'static str,
    >
        decreases entries.len(),
    {
        if entries.len() == 0 {
            Ok(self)
        } else {
            match self.set_all(who, token, entries.drop_last()) {
                Err(e) => Err(e),
                Ok(s) => match s.set_verdict(who, token, entries.last().0, entries.last().1) {
                    Err(e) => Err(e),
                    Ok(()) => Ok(s.set_applied(who, token, entries.last().0, entries.last().1)),
                },
            }
        }
    }

    /// Once a balance cannot be set, no longer list of balances can.
    pub proof fn lemma_set_all_fails(self, who: AccountId, token: Seq<u8>, entries: Seq<(AssetType, Balance)>, n: int)
        requires
            0 <= n <= entries.len(),
            self.set_all(who, token, entries.take(n)) is Err,
        ensures
            self.set_all(who, token, entries) == self.set_all(who, token, entries.take(n)),
        decreases entries.len() - n,
    {
        if n == entries.len() {
            assert(entries.take(n) =~= entries);
        } else {
            assert(entries.take(n + 1).drop_last() =~= entries.take(n));
            self.lemma_set_all_fails(who, token, entries, n + 1);
        }
    }

    /// Where a list of balances can be set, so can each shorter one.
    pub proof fn lemma_set_all_prefix(self, who: AccountId, token: Seq<u8>, entries: Seq<(AssetType, Balance)>, n: int)
        requires
            0 <= n <= entries.len(),
            self.set_all(who, token, entries) is Ok,
        ensures
            self.set_all(who, token, entries.take(n)) is Ok,
    {
        if self.set_all(who, token, entries.take(n)) is Err {
            self.lemma_set_all_fails(who, token, entries, n);
        }
    }
}

impl Module {
    /// Sets the balance of type `type_` that `who` holds of `token` to `value`. The total of
    /// that type follows the balance.
    pub fn set_balance(&mut self, who: &AccountId, token: &Token, type_: AssetType, value: Balance) -> (r:
        Result<(), &'static str>)
        requires
            old(self).wf(),
        ensures
            final(self).wf(),
            r == old(self)@.set_verdict(*who, token@, type_, value),
            r.is_ok() ==> final(self)@ == old(self)@.set_applied(*who, token@, type_, value),
            r.is_err() ==> *final(self) == *old(self),
    {
        proof {
            Balances::lemma_get_with();
        }
        let native = is_pcx(token);
        let derived = native && type_ == AssetType::Free;
        let old_value = self.balance_unchecked(who, token, type_);
        let stored = self.stored_total(token).get(type_);
        let mut new_issuance = self.total_issuance;
        let mut new_total = stored;
        if value > old_value {
            let diff = value - old_value;
            if native {
                new_issuance = match self.total_issuance.checked_add(diff) {
                    Some(b) => b,
                    None => {
                        return Err("old total balance too high to add value");
                    },
                };
            }
            if !derived {
                new_total = match stored.checked_add(diff) {
                    Some(b) => b,
                    None => {
                        return Err("old total balance too high to add value");
                    },
                };
            }
        } else {
            let diff = old_value - value;
            if native {
                new_issuance = match self.total_issuance.checked_sub(diff) {
                    Some(b) => b,
                    None => {
                        return Err("old total balance too low to sub value");
                    },
                };
            }
            if !derived {
                new_total = match stored.checked_sub(diff) {
                    Some(b) => b,
                    None => {
                        return Err("old total balance too low to sub value");
                    },
                };
            }
        }
        if value == old_value {
            return Ok(());
        }
        self.set_asset_balance(who, token, type_, value);
        self.set_total_asset_balance(token, type_, new_total);
        self.total_issuance = new_issuance;
        self.deposit_event(Event::SetBalance(bytes_clone(token), *who, type_, value));
        proof {
            assert forall|t: Seq<u8>, y: AssetType|
                !(t == pcx() && y == AssetType::Free) implies (#[trigger] self@.stored_total(
                t,
            ).spec_get(y)) == sum_held(self.balances.ids(), self.balances.values(), t, y) by {
                assert(old(self)@.stored_total(t).spec_get(y) == sum_held(
                    old(self).balances.ids(),
                    old(self).balances.values(),
                    t,
                    y,
                ));
            }
        }
        Ok(())
    }

    /// Whether the balances `balances` of `who` in `token` can be set one after the other.
    fn check_balances(&self, who: &AccountId, token: &Token, balances: &Vec<(AssetType, Balance)>) -> (r:
        Result<(), &'static str>)
        requires
            self.wf(),
        ensures
            match r {
                Ok(()) => self@.set_all(*who, token@, balances@) is Ok,
                Err(e) => self@.set_all(*who, token@, balances@) == Err::<LedgerState, &'static str>(e),
            },
    {
        proof {
            Balances::lemma_get_with();
        }
        let native = is_pcx(token);
        let mut held = self.balance_of(who, token);
        let mut totals = self.stored_total(token);
        let mut issuance = self.total_issuance;
        let ghost mut state = self@;
        let mut i: usize = 0;
        assert(balances@.take(0) =~= Seq::<(AssetType, Balance)>::empty());
        while i < balances.len()
            invariant
                i <= balances.len(),
                native == (token@ == pcx()),
                self@.set_all(*who, token@, balances@.take(i as int)) == Ok::<LedgerState, &'static str>(
                    state,
                ),
                forall|y: AssetType| held.spec_get(y) == state.balance(*who, token@, y),
                totals == state.stored_total(token@),
                issuance == state.total_issuance,
            decreases balances.len() - i,
        {
            proof {
                Balances::lemma_get_with();
                assert(balances@.take(i + 1).drop_last() =~= balances@.take(i as int));
                assert(balances@.take(i + 1).last() == balances@[i as int]);
            }
            let (type_, value) = balances[i];
            let derived = native && type_ == AssetType::Free;
            let old_value = held.get(type_);
            let stored = totals.get(type_);
            let ghost verdict = state.set_verdict(*who, token@, type_, value);
            if value > old_value {
                let diff = value - old_value;
                if native {
                    issuance = match issuance.checked_add(diff) {
                        Some(b) => b,
                        None => {
                            proof {
                                self@.lemma_set_all_fails(*who, token@, balances@, i + 1);
                            }
                            return Err("old total balance too high to add value");
                        },
                    };
                }
                if !derived {
                    totals = match stored.checked_add(diff) {
                        Some(b) => totals.with(type_, b),
                        None => {
                            proof {
                                self@.lemma_set_all_fails(*who, token@, balances@, i + 1);
                            }
                            return Err("old total balance too high to add value");
                        },
                    };
                }
            } else if value < old_value {
                let diff = old_value - value;
                if native {
                    issuance = match issuance.checked_sub(diff) {
                        Some(b) => b,
                        None => {
                            proof {
                                self@.lemma_set_all_fails(*who, token@, balances@, i + 1);
                            }
                            return Err("old total balance too low to sub value");
                        },
                    };
                }
                if !derived {
                    totals = match stored.checked_sub(diff) {
                        Some(b) => totals.with(type_, b),
                        None => {
                            proof {
                                self@.lemma_set_all_fails(*who, token@, balances@, i + 1);
                            }
                            return Err("old total balance too low to sub value");
                        },
                    };
                }
            }
            held = held.with(type_, value);
            proof {
                let next = state.set_applied(*who, token@, type_, value);
                assert(verdict.is_ok());
                assert forall|y: AssetType| held.spec_get(y) == next.balance(*who, token@, y) by {}
                assert(totals == next.stored_total(token@)) by {
                    if value != old_value && !derived {
                        assert(next.totals.dom().contains(token@));
                    }
                }
                state = next;
            }
            i += 1;
        }
        assert(balances@.take(balances.len() as int) =~= balances@);
        Ok(())
    }

    /// Sets the balances `balances` of `who` in `token`, type by type in the order of the
    /// types; the totals follow the balances. Nothing is written unless every balance can be
    /// set.
    pub fn set_balance_by_root(&mut self, who: &AccountId, token: &Token, balances: BalanceMap) -> (r:
        Result<(), &'static str>)
        requires
            old(self).wf(),
        ensures
            final(self).wf(),
            match r {
                Ok(()) => old(self)@.set_all(*who, token@, balances.entries()) == Ok::<
                    LedgerState,
                    &'static str,
                >(final(self)@),
                Err(e) => old(self)@.set_all(*who, token@, balances.entries()) == Err::<
                    LedgerState,
                    &'static str,
                >(e) && *final(self) == *old(self),
            },
    {
        self.set_entries(who, token, balances.to_entries())
    }

    /// Sets the balances `balances` of `who` in `token`, one after the other.
    fn set_entries(&mut self, who: &AccountId, token: &Token, balances: Vec<(AssetType, Balance)>) -> (r:
        Result<(), &'static str>)
        requires
            old(self).wf(),
        ensures
            final(self).wf(),
            match r {
                Ok(()) => old(self)@.set_all(*who, token@, balances@) == Ok::<
                    LedgerState,
                    &'static str,
                >(final(self)@),
                Err(e) => old(self)@.set_all(*who, token@, balances@) == Err::<
                    LedgerState,
                    &'static str,
                >(e) && *final(self) == *old(self),
            },
    {
        match self.check_balances(who, token, &balances) {
            Ok(()) => {},
            Err(e) => {
                return Err(e);
            },
        }
        let mut i: usize = 0;
        assert(balances@.take(0) =~= Seq::<(AssetType, Balance)>::empty());
        while i < balances.len()
            invariant
                self.wf(),
                i <= balances.len(),
                old(self)@.set_all(*who, token@, balances@) is Ok,
                old(self)@.set_all(*who, token@, balances@.take(i as int)) == Ok::<
                    LedgerState,
                    &'static str,
                >(self@),
            decreases balances.len() - i,
        {
            proof {
                assert(balances@.take(i + 1).drop_last() =~= balances@.take(i as int));
                assert(balances@.take(i + 1).last() == balances@[i as int]);
                old(self)@.lemma_set_all_prefix(*who, token@, balances@, i + 1);
            }
            let (type_, value) = balances[i];
            let _ = self.set_balance(who, token, type_, value);
            i += 1;
        }
        assert(balances@.take(balances.len() as int) =~= balances@);
        Ok(())
    }

    /// Moves `value` of `token` from the free balance of `transactor` to the free balance of
    /// `dest`. A transfer to oneself does nothing and is accepted.
    pub fn transfer(&mut self, transactor: &AccountId, dest: &AccountId, token: &Token, value: Balance) -> (r:
        Result<(), &'static str>)
        requires
            old(self).wf(),
        ensures
            final(self).wf(),
            r == match old(self)@.move_verdict(
                token@,
                *transactor,
                AssetType::Free,
                *dest,
                AssetType::Free,
                value,
                true,
            ) {
                Ok(()) => Ok::<(), &'static str>(()),
                Err(e) => Err::<(), &'static str>(e.spec_info()),
            },
            r.is_ok() ==> final(self)@ == old(self)@.moved(
                token@,
                *transactor,
                AssetType::Free,
                *dest,
                AssetType::Free,
                value,
            ),
            r.is_err() ==> *final(self) == *old(self),
    {
        if *transactor == *dest {
            return Ok(());
        }
        match self.move_free_balance(token, transactor, dest, value) {
            Ok(()) => Ok(()),
            Err(e) => Err(e.info()),
        }
    }

    /// Free balance that `who` holds of the native token.
    pub fn pcx_free_balance(&self, who: &AccountId) -> (b: Balance)
        requires
            self.wf(),
        ensures
            b == self@.balance(*who, pcx(), AssetType::Free),
    {
        self.free_balance(who, &pcx_token())
    }

    /// Sum of the balances of every type that `who` holds of the native token.
    pub fn pcx_total_balance(&self, who: &AccountId) -> (b: u128)
        requires
            self.wf(),
        ensures
            b == self@.balances_of(*who, pcx()).sum(),
    {
        self.all_type_balance_of(who, &pcx_token())
    }

    /// Creates `value` of the native token as free balance of `who`.
    pub fn pcx_issue(&mut self, who: &AccountId, value: Balance) -> (r: Result<(), &'static str>)
        requires
            old(self).wf(),
        ensures
            final(self).wf(),
            r == old(self)@.issue_verdict(pcx(), *who, value),
            r.is_ok() ==> final(self)@ == old(self)@.issued(pcx(), *who, value),
            r.is_err() ==> *final(self) == *old(self),
    {
        self.issue(&pcx_token(), who, value)
    }

    /// Moves `value` of the native token from `from`'s balance of type `from_type` to `to`'s
    /// balance of type `to_type`.
    pub fn pcx_move_balance(
        &mut self,
        from: &AccountId,
        from_type: AssetType,
        to: &AccountId,
        to_type: AssetType,
        value: Balance,
    ) -> (r: Result<(), AssetErr>)
        requires
            old(self).wf(),
        ensures
            final(self).wf(),
            r == old(self)@.move_verdict(pcx(), *from, from_type, *to, to_type, value, true),
            r.is_ok() ==> final(self)@ == old(self)@.moved(
                pcx(),
                *from,
                from_type,
                *to,
                to_type,
                value,
            ),
            r.is_err() ==> *final(self) == *old(self),
    {
        self.move_balance(&pcx_token(), from, from_type, to, to_type, value)
    }

    /// Moves `value` of the native token from the free balance of `from` to the free balance
    /// of `to`.
    pub fn pcx_move_free_balance(&mut self, from: &AccountId, to: &AccountId, value: Balance) -> (r:
        Result<(), AssetErr>)
        requires
            old(self).wf(),
        ensures
            final(self).wf(),
            r == old(self)@.move_verdict(
                pcx(),
                *from,
                AssetType::Free,
                *to,
                AssetType::Free,
                value,
                true,
            ),
            r.is_ok() ==> final(self)@ == old(self)@.moved(
                pcx(),
                *from,
                AssetType::Free,
                *to,
                AssetType::Free,
                value,
            ),
            r.is_err() ==> *final(self) == *old(self),
    {
        self.move_balance(&pcx_token(), from, AssetType::Free, to, AssetType::Free, value)
    }
}

} // verus!
