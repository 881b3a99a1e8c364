//! Token balances in two parts, free and reserved, over the balance store.
//! What is reserved is what is set aside for withdrawal.

use vstd::prelude::*;
use crate::assetdef::{desc_verdict, is_valid_desc, is_valid_token, token_verdict, Asset, AssetView, Chain};
use crate::assets::{pcx, AssetErr, AssetType, LedgerState};
use crate::primitives::{bytes_clone, AccountId, Balance};

verus! {

/// Symbol of a token.
pub type Symbol = Vec<u8>;

/// Description of a token.
pub type TokenDesc = Vec<u8>;

/// Number of decimal places of a token.
pub type Precision = u16;

/// The part of a balance that stands for what is reserved.
pub const RESERVED: AssetType = AssetType::ReservedWithdrawal;

/// Whether `v` can be the symbol of a token.
pub fn is_valid_symbol(v: &[u8]) -> (r: Result<(), &'static str>)
    ensures
        r == token_verdict(v@),
{
    is_valid_token(v)
}

/// Whether `v` can be the description of a token.
pub fn is_valid_token_desc(v: &[u8]) -> (r: Result<(), &'static str>)
    ensures
        r == desc_verdict(v@),
{
    is_valid_desc(v)
}

/// A token.
#[derive(Debug)]
pub struct Token {
    symbol: Symbol,
    token_desc: TokenDesc,
    precision: Precision,
}

/// A [`Token`] as plain values.
pub struct TokenView {
    pub symbol: Seq<u8>,
    pub token_desc: Seq<u8>,
    pub precision: Precision,
}

impl View for Token {
    type V = TokenView;

    closed spec fn view(&self) -> TokenView {
        TokenView { symbol: self.symbol@, token_desc: self.token_desc@, precision: self.precision }
    }
}

impl TokenView {
    /// Verdict on a token: its symbol, then its description.
    pub open spec fn verdict(self) -> Result<(), &'static str> {
        if token_verdict(self.symbol).is_err() {
            token_verdict(self.symbol)
        } else {
            desc_verdict(self.token_desc)
        }
    }

    /// The token as an asset of the balance store.
    pub open spec fn asset(self) -> AssetView {
        AssetView {
            token: self.symbol,
            token_name: self.symbol,
            chain: Chain::ChainX,
            precision: self.precision,
            desc: self.token_desc,
        }
    }
}

impl Token {
    pub fn new(symbol: Symbol, token_desc: TokenDesc, precision: Precision) -> (t: Token)
        ensures
            t@ == (TokenView { symbol: symbol@, token_desc: token_desc@, precision }),
    {
        Token { symbol, token_desc, precision }
    }

    pub fn symbol(&self) -> (s: Symbol)
        ensures
            s@ == self@.symbol,
    {
        bytes_clone(&self.symbol)
    }

    pub fn precision(&self) -> (p: Precision)
        ensures
            p == self@.precision,
    {
        self.precision
    }

    pub fn token_desc(&self) -> (d: TokenDesc)
        ensures
            d@ == self@.token_desc,
    {
        bytes_clone(&self.token_desc)
    }

    pub fn set_token_desc(&mut self, desc: &TokenDesc)
        ensures
            final(self)@ == (TokenView { token_desc: desc@, ..old(self)@ }),
    {
        self.token_desc = bytes_clone(desc);
    }

    pub fn is_valid(&self) -> (r: Result<(), &'static str>)
        ensures
            r == self@.verdict(),
    {
        let s = is_valid_symbol(self.symbol.as_slice());
        if s.is_err() {
            return s;
        }
        is_valid_token_desc(self.token_desc.as_slice())
    }
}

/// Why a move of free tokens was refused.
#[derive(Clone, Copy, PartialEq, Eq, Structural, Debug)]
pub enum TokenErr {
    NotEnough,
    OverFlow,
    InvalidToken,
    InvalidAccount,
}

impl TokenErr {
    /// The refusal in words.
    pub open spec fn spec_info(&self) -> &'static str {
        match *self {
            TokenErr::NotEnough => "free token too low",
            TokenErr::OverFlow => "overflow for this value",
            TokenErr::InvalidToken => "not a valid token for this account",
            TokenErr::InvalidAccount => "Account Locked",
        }
    }

    #[verifier::when_used_as_spec(spec_info)]
    pub fn info(&self) -> (s: &'static str)
        ensures
            s == self.spec_info(),
    {
        match *self {
            TokenErr::NotEnough => "free token too low",
            TokenErr::OverFlow => "overflow for this value",
            TokenErr::InvalidToken => "not a valid token for this account",
            TokenErr::InvalidAccount => "Account Locked",
        }
    }
}

/// The token balances as plain values.
pub struct TokenState {
    pub ledger: LedgerState,
    /// What a transfer costs, in the native token.
    pub transfer_token_fee: Balance,
    /// The account that fees are paid to.
    pub fee_receiver: AccountId,
}

impl TokenState {
    /// Whether `symbol` is in the token list of `who`: the native token is in every list, any
    /// other token once the account has held it.
    pub open spec fn in_list_of(self, who: AccountId, symbol: Seq<u8>) -> bool {
        symbol == pcx() || self.ledger.has_asset(who, symbol)
    }

    /// Verdict on using `symbol` for `who`.
    pub open spec fn verdict_for(self, who: AccountId, symbol: Seq<u8>) -> Result<(), &'static str> {
        if self.ledger.asset_verdict(symbol).is_err() {
            self.ledger.asset_verdict(symbol)
        } else if !self.in_list_of(who, symbol) {
            Err("not a existed token in this account token list")
        } else {
            Ok(())
        }
    }

    /// Verdict on registering `token`.
    pub open spec fn register_verdict(self, token: TokenView) -> Result<(), &'static str> {
        if token.verdict().is_err() {
            token.verdict()
        } else if self.ledger.is_registered(token.symbol) {
            Err("already has this token symbol")
        } else {
            Ok(())
        }
    }

    /// Verdict on cancelling the token `symbol`.
    pub open spec fn cancel_verdict(self, symbol: Seq<u8>) -> Result<(), &'static str> {
        if token_verdict(symbol).is_err() {
            token_verdict(symbol)
        } else if !self.ledger.is_registered(symbol) {
            Err("this token symbol dose not register yet or is invalid")
        } else {
            Ok(())
        }
    }

    /// Verdict on issuing `value` of `symbol` to `who`.
    pub open spec fn issue_verdict(self, who: AccountId, symbol: Seq<u8>, value: Balance) -> Result<
        (),
        &'static str,
    > {
        if symbol == pcx() {
            Err("can't issue chainx token")
        } else if self.ledger.asset_verdict(symbol).is_err() {
            self.ledger.asset_verdict(symbol)
        } else if self.ledger.balance(who, symbol, AssetType::Free) + value > u64::MAX {
            Err("free token too high to issue")
        } else if self.ledger.total(symbol, AssetType::Free) + value > u64::MAX {
            Err("total free token too high to issue")
        } else {
            Ok(())
        }
    }

    /// Verdict on destroying `value` of what `who` has reserved of `symbol`.
    pub open spec fn destroy_verdict(self, who: AccountId, symbol: Seq<u8>, value: Balance) -> Result<
        (),
        &'static str,
    > {
        if symbol == pcx() {
            Err("can't destroy chainx token")
        } else if self.verdict_for(who, symbol).is_err() {
            self.verdict_for(who, symbol)
        } else if self.ledger.balance(who, symbol, RESERVED) < value {
            Err("reserved token too low to destroy")
        } else if self.ledger.total(symbol, RESERVED) < value {
            Err("total reserved token too low to destroy")
        } else {
            Ok(())
        }
    }

    /// Verdict on reserving `value` of the free balance that `who` holds of `symbol`.
    pub open spec fn reserve_verdict(self, who: AccountId, symbol: Seq<u8>, value: Balance) -> Result<
        (),
        &'static str,
    > {
        if self.verdict_for(who, symbol).is_err() {
            self.verdict_for(who, symbol)
        } else {
            match self.ledger.move_verdict(
                symbol,
                who,
                AssetType::Free,
                who,
                RESERVED,
                value,
                false,
            ) {
                Ok(()) => Ok(()),
                Err(e) => Err(reserve_text(symbol == pcx(), e)),
            }
        }
    }

    /// Verdict on freeing `value` of what `who` has reserved of `symbol`.
    pub open spec fn unreserve_verdict(self, who: AccountId, symbol: Seq<u8>, value: Balance) -> Result<
        (),
        &'static str,
    > {
        if self.verdict_for(who, symbol).is_err() {
            self.verdict_for(who, symbol)
        } else {
            match self.ledger.move_verdict(
                symbol,
                who,
                RESERVED,
                who,
                AssetType::Free,
                value,
                false,
            ) {
                Ok(()) => Ok(()),
                Err(e) => Err(unreserve_text(symbol == pcx(), e)),
            }
        }
    }

    /// Verdict on moving `value` of the free balance of `symbol` from `from` to `to`.
    pub open spec fn move_verdict(self, from: AccountId, to: AccountId, symbol: Seq<u8>, value: Balance) -> Result<
        (),
        TokenErr,
    > {
        if self.verdict_for(from, symbol).is_err() {
            Err(TokenErr::InvalidToken)
        } else {
            match self.ledger.move_verdict(
                symbol,
                from,
                AssetType::Free,
                to,
                AssetType::Free,
                value,
                false,
            ) {
                Ok(()) => Ok(()),
                Err(AssetErr::NotEnough) => Err(TokenErr::NotEnough),
                Err(_) => Err(TokenErr::OverFlow),
            }
        }
    }

    /// Verdict on a transfer of `value` of `symbol` from `from` to `to`, for which `from`
    /// pays the fee in the native token.
    pub open spec fn transfer_verdict(self, from: AccountId, to: AccountId, symbol: Seq<u8>, value: Balance) -> Result<
        (),
        &'static str,
    > {
        if symbol == pcx() {
            Err("not allow to transfer chainx use transfer_token")
        } else if self.verdict_for(from, symbol).is_err() {
            self.verdict_for(from, symbol)
        } else if self.ledger.balance(from, symbol, AssetType::Free) < value {
            Err("free token too low to send value")
        } else if self.ledger.balance(to, symbol, AssetType::Free) + value > u64::MAX {
            Err("destination free token too high to receive value")
        } else if self.ledger.move_verdict(
            pcx(),
            from,
            AssetType::Free,
            self.fee_receiver,
            AssetType::Free,
            self.transfer_token_fee,
            false,
        ).is_err() {
            Err("chainx balance is not enough to pay the fee")
        } else {
            Ok(())
        }
    }

    /// The state after a transfer: the tokens have moved, and the fee is paid.
    pub open spec fn transferred(self, from: AccountId, to: AccountId, symbol: Seq<u8>, value: Balance) -> TokenState {
        TokenState {
            ledger: self.ledger.moved(
                pcx(),
                from,
                AssetType::Free,
                self.fee_receiver,
                AssetType::Free,
                self.transfer_token_fee,
            ).moved(symbol, from, AssetType::Free, to, AssetType::Free, value),
            ..self
        }
    }
}

/// What a refusal to reserve is called.
pub open spec fn reserve_text(native: bool, e: AssetErr) -> &'static str {
    match e {
        AssetErr::NotEnough => if native {
            "chainx free token too low to reserve"
        } else {
            "free token too low to reserve"
        },
        AssetErr::OverFlow => if native {
            "chainx reserved token too high to reserve"
        } else {
            "reserved token too high to reserve"
        },
        AssetErr::TotalAssetNotEnough => "total free token too low to reserve",
        _ => if native {
            "chainx total reserved token too high to reserve"
        } else {
            "total reserved token too high to reserve"
        },
    }
}

/// What a refusal to free what is reserved is called.
pub open spec fn unreserve_text(native: bool, e: AssetErr) -> &'static str {
    match e {
        AssetErr::NotEnough => if native {
            "chainx reserved token too low to unreserve"
        } else {
            "reserved token too low to unreserve"
        },
        AssetErr::OverFlow => if native {
            "chainx free token too high to unreserve"
        } else {
            "free token too high to unreserve"
        },
        AssetErr::TotalAssetNotEnough => if native {
            "chainx total reserved token too low to unreserve"
        } else {
            "total reserved token too low to unreserve"
        },
        _ => "total free token too high to unreserve",
    }
}

fn reserve_text_of(native: bool, e: AssetErr) -> (s: &'static str)
    ensures
        s == reserve_text(native, e),
{
    match e {
        AssetErr::NotEnough => if native {
            "chainx free token too low to reserve"
        } else {
            "free token too low to reserve"
        },
        AssetErr::OverFlow => if native {
            "chainx reserved token too high to reserve"
        } else {
            "reserved token too high to reserve"
        },
        AssetErr::TotalAssetNotEnough => "total free token too low to reserve",
        _ => if native {
            "chainx total reserved token too high to reserve"
        } else {
            "total reserved token too high to reserve"
        },
    }
}

fn unreserve_text_of(native: bool, e: AssetErr) -> (s: &'static str)
    ensures
        s == unreserve_text(native, e),
{
    match e {
        AssetErr::NotEnough => if native {
            "chainx reserved token too low to unreserve"
        } else {
            "reserved token too low to unreserve"
        },
        AssetErr::OverFlow => if native {
            "chainx free token too high to unreserve"
        } else {
            "free token too high to unreserve"
        },
        AssetErr::TotalAssetNotEnough => if native {
            "chainx total reserved token too low to unreserve"
        } else {
            "total reserved token too low to unreserve"
        },
        _ => "total free token too high to unreserve",
    }
}

/// Token balances.
pub struct Module {
    ledger: crate::assets::Module,
    transfer_token_fee: Balance,
    fee_receiver: AccountId,
}

impl View for Module {
    type V = TokenState;

    closed spec fn view(&self) -> TokenState {
        TokenState {
            ledger: self.ledger@,
            transfer_token_fee: self.transfer_token_fee,
            fee_receiver: self.fee_receiver,
        }
    }
}

impl Module {
    /// Well-formedness: the balance store underneath is well-formed.
    pub closed spec fn wf(&self) -> bool {
        self.ledger.wf()
    }

    /// Token balances over the balance store `ledger`.
    pub fn new(ledger: crate::assets::Module, transfer_token_fee: Balance, fee_receiver: AccountId) -> (m:
        Module)
        requires
            ledger.wf(),
        ensures
            m.wf(),
            m@ == (TokenState { ledger: ledger@, transfer_token_fee, fee_receiver }),
    {
        Module { ledger, transfer_token_fee, fee_receiver }
    }

    /// The balance store underneath.
    pub fn ledger(&self) -> (ledger: &crate::assets::Module)
        requires
            self.wf(),
        ensures
            ledger.wf(),
            ledger@ == self@.ledger,
    {
        &self.ledger
    }

    /// Free balance that the account of `who_sym` holds of the token of `who_sym`.
    pub fn free_token(&self, who_sym: &(AccountId, Symbol)) -> (b: Balance)
        requires
            self.wf(),
        ensures
            b == self@.ledger.balance(who_sym.0, who_sym.1@, AssetType::Free),
    {
        self.ledger.asset_balance(&who_sym.0, &who_sym.1, AssetType::Free)
    }

    /// What the account of `who_sym` has reserved of the token of `who_sym`.
    pub fn reserved_token(&self, who_sym: &(AccountId, Symbol)) -> (b: Balance)
        requires
            self.wf(),
        ensures
            b == self@.ledger.balance(who_sym.0, who_sym.1@, RESERVED),
    {
        self.ledger.asset_balance(&who_sym.0, &who_sym.1, RESERVED)
    }

    /// Free and reserved balance of `who` in `symbol`, taken together.
    pub fn total_token_of(&self, who: &AccountId, symbol: &Symbol) -> (b: u128)
        requires
            self.wf(),
        ensures
            b == self@.ledger.balance(*who, symbol@, AssetType::Free) + self@.ledger.balance(
                *who,
                symbol@,
                RESERVED,
            ),
    {
        self.ledger.asset_balance(who, symbol, AssetType::Free) as u128 + self.ledger.asset_balance(
            who,
            symbol,
            RESERVED,
        ) as u128
    }

    /// Total of the free tokens `symbol`.
    pub fn total_free_token(&self, symbol: &Symbol) -> (b: Balance)
        requires
            self.wf(),
        ensures
            b == self@.ledger.total(symbol@, AssetType::Free),
    {
        self.ledger.total_asset_balance(symbol, AssetType::Free)
    }

    /// Total of the reserved tokens `symbol`.
    pub fn total_reserved_token(&self, symbol: &Symbol) -> (b: Balance)
        requires
            self.wf(),
        ensures
            b == self@.ledger.total(symbol@, RESERVED),
    {
        self.ledger.total_asset_balance(symbol, RESERVED)
    }

    /// Everything that exists of `symbol`: for the native token the total issuance, for any
    /// other the free and the reserved total taken together.
    pub fn total_token(&self, symbol: &Symbol) -> (b: u128)
        requires
            self.wf(),
        ensures
            b == if symbol@ == pcx() {
                self@.ledger.total_issuance as int
            } else {
                self@.ledger.total(symbol@, AssetType::Free) + self@.ledger.total(symbol@, RESERVED)
            },
    {
        if crate::assets::is_pcx(symbol) {
            self.ledger.all_type_balance(symbol)
        } else {
            self.ledger.total_asset_balance(symbol, AssetType::Free) as u128
                + self.ledger.total_asset_balance(symbol, RESERVED) as u128
        }
    }

    /// Registers `token`.
    pub fn register_token(&mut self, token: Token) -> (r: Result<(), &'static str>)
        requires
            old(self).wf(),
        ensures
            final(self).wf(),
            r == old(self)@.register_verdict(token@),
            r.is_ok() ==> final(self)@ == (TokenState {
                ledger: old(self)@.ledger.registered(token@.asset(), true, false),
                ..old(self)@
            }),
            r.is_err() ==> final(self)@ == old(self)@,
    {
        let v = token.is_valid();
        if v.is_err() {
            return v;
        }
        if self.ledger.is_registered(&token.symbol) {
            return Err("already has this token symbol");
        }
        let asset = match Asset::new(
            bytes_clone(&token.symbol),
            bytes_clone(&token.symbol),
            Chain::ChainX,
            token.precision,
            token.token_desc,
        ) {
            Ok(a) => a,
            Err(e) => {
                return Err(e);
            },
        };
        let _ = self.ledger.register_asset(asset, true, false);
        Ok(())
    }

    /// Cancels the token `symbol`: it stays in the list, but it is no longer valid.
    pub fn cancel_token(&mut self, symbol: &Symbol) -> (r: Result<(), &'static str>)
        requires
            old(self).wf(),
        ensures
            final(self).wf(),
            r == old(self)@.cancel_verdict(symbol@),
            r.is_ok() ==> final(self)@ == (TokenState {
                ledger: old(self)@.ledger.revoked(symbol@),
                ..old(self)@
            }),
            r.is_err() ==> final(self)@ == old(self)@,
    {
        let v = is_valid_symbol(symbol.as_slice());
        if v.is_err() {
            return v;
        }
        if !self.ledger.is_registered(symbol) {
            return Err("this token symbol dose not register yet or is invalid");
        }
        let _ = self.ledger.revoke_asset(symbol);
        Ok(())
    }

    /// Every registered token.
    pub fn token_list(&self) -> (list: Vec<Symbol>)
        requires
            self.wf(),
        ensures
            crate::assets::tokens_view(list@) == self@.ledger.assets(),
    {
        self.ledger.assets()
    }

    /// Every registered token that has not been cancelled.
    pub fn valid_token_list(&self) -> (list: Vec<Symbol>)
        requires
            self.wf(),
        ensures
            crate::assets::tokens_view(list@) == self@.ledger.valid_assets(),
    {
        self.ledger.valid_assets()
    }

    /// Whether `symbol` names a token that can be used.
    pub fn is_valid_token(&self, symbol: &Symbol) -> (r: Result<(), &'static str>)
        requires
            self.wf(),
        ensures
            r == self@.ledger.asset_verdict(symbol@),
    {
        self.ledger.is_valid_asset(symbol)
    }

    /// Whether `symbol` names a token that can be used and that is in the token list of
    /// `who`.
    pub fn is_valid_token_for(&self, who: &AccountId, symbol: &Symbol) -> (r: Result<(), &'static str>)
        requires
            self.wf(),
        ensures
            r == self@.verdict_for(*who, symbol@),
    {
        let v = self.is_valid_token(symbol);
        if v.is_err() {
            return v;
        }
        if crate::assets::is_pcx(symbol) || self.ledger.has_asset(who, symbol) {
            Ok(())
        } else {
            Err("not a existed token in this account token list")
        }
    }

    /// Creates `value` of `symbol` as free balance of `who`.
    pub fn issue(&mut self, who: &AccountId, symbol: &Symbol, value: Balance) -> (r: Result<
        (),
        &'static str,
    >)
        requires
            old(self).wf(),
        ensures
            final(self).wf(),
            r == old(self)@.issue_verdict(*who, symbol@, value),
            r.is_ok() ==> final(self)@ == (TokenState {
                ledger: old(self)@.ledger.issued(symbol@, *who, value),
                ..old(self)@
            }),
            r.is_err() ==> final(self)@ == old(self)@,
    {
        if crate::assets::is_pcx(symbol) {
            return Err("can't issue chainx token");
        }
        let v = self.is_valid_token(symbol);
        if v.is_err() {
            return v;
        }
        let free_token = self.ledger.asset_balance(who, symbol, AssetType::Free);
        let total_free_token = self.ledger.total_asset_balance(symbol, AssetType::Free);
        if free_token.checked_add(value).is_none() {
            return Err("free token too high to issue");
        }
        if total_free_token.checked_add(value).is_none() {
            return Err("total free token too high to issue");
        }
        let _ = self.ledger.issue(symbol, who, value);
        Ok(())
    }

    /// Destroys `value` of what `who` has reserved of `symbol`.
    pub fn destroy(&mut self, who: &AccountId, symbol: &Symbol, value: Balance) -> (r: Result<
        (),
        &'static str,
    >)
        requires
            old(self).wf(),
        ensures
            final(self).wf(),
            r == old(self)@.destroy_verdict(*who, symbol@, value),
            r.is_ok() ==> final(self)@ == (TokenState {
                ledger: old(self)@.ledger.destroyed(symbol@, *who, value),
                ..old(self)@
            }),
            r.is_err() ==> final(self)@ == old(self)@,
    {
        if crate::assets::is_pcx(symbol) {
            return Err("can't destroy chainx token");
        }
        let v = self.is_valid_token_for(who, symbol);
        if v.is_err() {
            return v;
        }
        let reserved_token = self.ledger.asset_balance(who, symbol, RESERVED);
        let total_reserved_token = self.ledger.total_asset_balance(symbol, RESERVED);
        if reserved_token < value {
            return Err("reserved token too low to destroy");
        }
        if total_reserved_token < value {
            return Err("total reserved token too low to destroy");
        }
        let _ = self.ledger.destroy(symbol, who, value);
        Ok(())
    }

    /// Reserves `value` of the free balance that `who` holds of `symbol`.
    pub fn reserve(&mut self, who: &AccountId, symbol: &Symbol, value: Balance) -> (r: Result<
        (),
        &'static str,
    >)
        requires
            old(self).wf(),
        ensures
            final(self).wf(),
            r == old(self)@.reserve_verdict(*who, symbol@, value),
            r.is_ok() ==> final(self)@ == (TokenState {
                ledger: old(self)@.ledger.moved(
                    symbol@,
                    *who,
                    AssetType::Free,
                    *who,
                    RESERVED,
                    value,
                ),
                ..old(self)@
            }),
            r.is_err() ==> final(self)@ == old(self)@,
    {
        let v = self.is_valid_token_for(who, symbol);
        if v.is_err() {
            return v;
        }
        match self.ledger.move_balance_with_checkflag(
            symbol,
            who,
            AssetType::Free,
            who,
            RESERVED,
            value,
            false,
        ) {
            Ok(()) => Ok(()),
            Err(e) => Err(reserve_text_of(crate::assets::is_pcx(symbol), e)),
        }
    }

    /// Frees `value` of what `who` has reserved of `symbol`.
    pub fn unreserve(&mut self, who: &AccountId, symbol: &Symbol, value: Balance) -> (r: Result<
        (),
        &'static str,
    >)
        requires
            old(self).wf(),
        ensures
            final(self).wf(),
            r == old(self)@.unreserve_verdict(*who, symbol@, value),
            r.is_ok() ==> final(self)@ == (TokenState {
                ledger: old(self)@.ledger.moved(
                    symbol@,
                    *who,
                    RESERVED,
                    *who,
                    AssetType::Free,
                    value,
                ),
                ..old(self)@
            }),
            r.is_err() ==> final(self)@ == old(self)@,
    {
        let v = self.is_valid_token_for(who, symbol);
        if v.is_err() {
            return v;
        }
        match self.ledger.move_balance_with_checkflag(
            symbol,
            who,
            RESERVED,
            who,
            AssetType::Free,
            value,
            false,
        ) {
            Ok(()) => Ok(()),
            Err(e) => Err(unreserve_text_of(crate::assets::is_pcx(symbol), e)),
        }
    }

    /// Moves `value` of the free balance of `symbol` from `from` to `to`.
    pub fn move_free_token(&mut self, from: &AccountId, to: &AccountId, symbol: &Symbol, value: Balance) -> (r:
        Result<(), TokenErr>)
        requires
            old(self).wf(),
        ensures
            final(self).wf(),
            r == old(self)@.move_verdict(*from, *to, symbol@, value),
            r.is_ok() ==> final(self)@ == (TokenState {
                ledger: old(self)@.ledger.moved(
                    symbol@,
                    *from,
                    AssetType::Free,
                    *to,
                    AssetType::Free,
                    value,
                ),
                ..old(self)@
            }),
            r.is_err() ==> final(self)@ == old(self)@,
    {
        if self.is_valid_token_for(from, symbol).is_err() {
            return Err(TokenErr::InvalidToken);
        }
        match self.ledger.move_balance_with_checkflag(
            symbol,
            from,
            AssetType::Free,
            to,
            AssetType::Free,
            value,
            false,
        ) {
            Ok(()) => Ok(()),
            Err(AssetErr::NotEnough) => Err(TokenErr::NotEnough),
            Err(_) => Err(TokenErr::OverFlow),
        }
    }

    /// Transfers `value` of `sym` from `transactor` to `dest`; `transactor` pays the fee in
    /// the native token. Nothing is changed where the tokens cannot be moved or the fee
    /// cannot be paid.
    pub fn transfer_token(&mut self, transactor: &AccountId, dest: &AccountId, sym: &Symbol, value: Balance) -> (r:
        Result<(), &'static str>)
        requires
            old(self).wf(),
        ensures
            final(self).wf(),
            r == old(self)@.transfer_verdict(*transactor, *dest, sym@, value),
            r.is_ok() ==> final(self)@ == old(self)@.transferred(*transactor, *dest, sym@, value),
            r.is_err() ==> final(self)@ == old(self)@,
    {
        if crate::assets::is_pcx(sym) {
            return Err("not allow to transfer chainx use transfer_token");
        }
        let v = self.is_valid_token_for(transactor, sym);
        if v.is_err() {
            return v;
        }
        let from_token = self.ledger.asset_balance(transactor, sym, AssetType::Free);
        let to_token = self.ledger.asset_balance(dest, sym, AssetType::Free);
        if from_token < value {
            return Err("free token too low to send value");
        }
        if to_token.checked_add(value).is_none() {
            return Err("destination free token too high to receive value");
        }
        let native = crate::assets::pcx_token();
        match self.ledger.move_balance_with_checkflag(
            &native,
            transactor,
            AssetType::Free,
            &self.fee_receiver,
            AssetType::Free,
            self.transfer_token_fee,
            false,
        ) {
            Ok(()) => {},
            Err(_) => {
                return Err("chainx balance is not enough to pay the fee");
            },
        }
        proof {
            crate::assets::Balances::lemma_get_with();
        }
        let _ = self.ledger.move_balance_with_checkflag(
            sym,
            transactor,
            AssetType::Free,
            dest,
            AssetType::Free,
            value,
            false,
        );
        Ok(())
    }

    /// What a transfer costs, in the native token.
    pub fn transfer_token_fee(&self) -> (fee: Balance)
        ensures
            fee == self@.transfer_token_fee,
    {
        self.transfer_token_fee
    }

    /// Sets what a transfer costs.
    pub fn set_transfer_token_fee(&mut self, val: Balance) -> (r: Result<(), &'static str>)
        requires
            old(self).wf(),
        ensures
            final(self).wf(),
            r.is_ok(),
            final(self)@ == (TokenState { transfer_token_fee: val, ..old(self)@ }),
    {
        self.transfer_token_fee = val;
        Ok(())
    }
}

} // verus!
