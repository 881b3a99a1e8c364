//! Asset definitions: tokens, their descriptions, and the chains they come from.

use vstd::prelude::*;
use crate::primitives::bytes_clone;

verus! {

/// Short symbol that names an asset, such as `PCX` or `BTC`.
pub type Token = Vec<u8>;

/// Free-form description of an asset.
pub type Desc = Vec<u8>;

/// Number of decimal places of an asset.
pub type Precision = u16;

/// Greatest length of a token.
pub const MAX_TOKEN_LEN: usize = 32;

/// Greatest length of a description.
pub const MAX_DESC_LEN: usize = 128;

/// The chain an asset originates from.
#[derive(Clone, Copy, PartialEq, Eq, Structural, Debug)]
pub enum Chain {
    ChainX,
    Bitcoin,
    Ethereum,
}

impl Chain {
    /// Every chain, in the order in which asset lists are reported.
    pub open spec fn all() -> Seq<Chain> {
        seq![Chain::ChainX, Chain::Bitcoin, Chain::Ethereum]
    }

    pub fn iterator() -> (chains: Vec<Chain>)
        ensures
            chains@ == Chain::all(),
    {
        let mut v: Vec<Chain> = Vec::new();
        v.push(Chain::ChainX);
        v.push(Chain::Bitcoin);
        v.push(Chain::Ethereum);
        assert(v@ =~= Chain::all());
        v
    }
}

/// Characters a token may hold: digits, letters, `-`, `.`, `|` and `~`.
pub open spec fn is_token_char(c: u8) -> bool {
    (0x30 <= c <= 0x39) || (0x41 <= c <= 0x5A) || (0x61 <= c <= 0x7A) || c == 0x2D || c == 0x2E
        || c == 0x7C || c == 0x7E
}

/// Characters a description may hold.
pub open spec fn is_desc_char(c: u8) -> bool {
    20 <= c <= 0x7E
}

/// Verdict on a token: its length is checked first, then its characters.
pub open spec fn token_verdict(v: Seq<u8>) -> Result<(), &'static str> {
    if v.len() > MAX_TOKEN_LEN || v.len() == 0 {
        Err("symbol length too long or zero")
    } else if exists|i: int| 0 <= i < v.len() && !is_token_char(#[trigger] v[i]) {
        Err("not a valid symbol char for number, capital/small letter or '-', '.', '|', '~'")
    } else {
        Ok(())
    }
}

/// Verdict on a description: its length is checked first, then its characters.
pub open spec fn desc_verdict(v: Seq<u8>) -> Result<(), &'static str> {
    if v.len() > MAX_DESC_LEN {
        Err("token desc length too long")
    } else if exists|i: int| 0 <= i < v.len() && !is_desc_char(#[trigger] v[i]) {
        Err("not a valid ascii visible char")
    } else {
        Ok(())
    }
}

/// Whether `v` can be a token: neither empty nor too long, and made of token characters.
pub fn is_valid_token(v: &[u8]) -> (r: Result<(), &'static str>)
    ensures
        r == token_verdict(v@),
{
    if v.len() > MAX_TOKEN_LEN || v.len() == 0 {
        return Err("symbol length too long or zero");
    }
    let mut i: usize = 0;
    while i < v.len()
        invariant
            0 < v.len() <= MAX_TOKEN_LEN,
            i <= v.len(),
            forall|j: int| 0 <= j < i ==> is_token_char(#[trigger] v@[j]),
        decreases v.len() - i,
    {
        let c = v[i];
        let ok = (c >= 0x30 && c <= 0x39) || (c >= 0x41 && c <= 0x5A) || (c >= 0x61 && c <= 0x7A)
            || c == 0x2D || c == 0x2E || c == 0x7C || c == 0x7E;
        if !ok {
            assert(!is_token_char(v@[i as int]));
            return Err(
                "not a valid symbol char for number, capital/small letter or '-', '.', '|', '~'",
            );
        }
        i += 1;
    }
    Ok(())
}

/// Whether `v` can be a description: not too long, and made of description characters.
pub fn is_valid_desc(v: &[u8]) -> (r: Result<(), &'static str>)
    ensures
        r == desc_verdict(v@),
{
    if v.len() > MAX_DESC_LEN {
        return Err("token desc length too long");
    }
    let mut i: usize = 0;
    while i < v.len()
        invariant
            v.len() <= MAX_DESC_LEN,
            i <= v.len(),
            forall|j: int| 0 <= j < i ==> is_desc_char(#[trigger] v@[j]),
        decreases v.len() - i,
    {
        let c = v[i];
        if !(c >= 20 && c <= 0x7E) {
            assert(!is_desc_char(v@[i as int]));
            return Err("not a valid ascii visible char");
        }
        i += 1;
    }
    Ok(())
}

/// A registered kind of asset.
#[derive(Debug)]
pub struct Asset {
    token: Token,
    token_name: Token,
    chain: Chain,
    precision: Precision,
    desc: Desc,
}

/// An [`Asset`] as plain values.
pub struct AssetView {
    pub token: Seq<u8>,
    pub token_name: Seq<u8>,
    pub chain: Chain,
    pub precision: Precision,
    pub desc: Seq<u8>,
}

impl AssetView {
    /// Verdict on an asset: token, then name, then description.
    pub open spec fn verdict(self) -> Result<(), &'static str> {
        if token_verdict(self.token).is_err() {
            token_verdict(self.token)
        } else if token_verdict(self.token_name).is_err() {
            token_verdict(self.token_name)
        } else {
            desc_verdict(self.desc)
        }
    }
}

impl View for Asset {
    type V = AssetView;

    closed spec fn view(&self) -> AssetView {
        AssetView {
            token: self.token@,
            token_name: self.token_name@,
            chain: self.chain,
            precision: self.precision,
            desc: self.desc@,
        }
    }
}

impl Asset {
    /// Builds an asset after checking it; an asset that fails the check is not built.
    pub fn new(token: Token, token_name: Token, chain: Chain, precision: Precision, desc: Desc) -> (r:
        Result<Asset, &'static str>)
        ensures
            match r {
                Ok(a) => a@ == (AssetView {
                    token: token@,
                    token_name: token_name@,
                    chain,
                    precision,
                    desc: desc@,
                }) && a@.verdict().is_ok(),
                Err(e) => (AssetView {
                    token: token@,
                    token_name: token_name@,
                    chain,
                    precision,
                    desc: desc@,
                }).verdict() == Err::<(), &'static str>(e),
            },
    {
        let a = Asset { token, token_name, chain, precision, desc };
        match a.is_valid() {
            Ok(()) => Ok(a),
            Err(e) => Err(e),
        }
    }

    /// Checks the token, the name and the description, in this order.
    pub fn is_valid(&self) -> (r: Result<(), &'static str>)
        ensures
            r == self@.verdict(),
    {
        let t = is_valid_token(self.token.as_slice());
        if t.is_err() {
            return t;
        }
        let n = is_valid_token(self.token_name.as_slice());
        if n.is_err() {
            return n;
        }
        is_valid_desc(self.desc.as_slice())
    }

    pub fn token(&self) -> (t: Token)
        ensures
            t@ == self@.token,
    {
        bytes_clone(&self.token)
    }

    pub fn token_name(&self) -> (t: Token)
        ensures
            t@ == self@.token_name,
    {
        bytes_clone(&self.token_name)
    }

    pub fn chain(&self) -> (c: Chain)
        ensures
            c == self@.chain,
    {
        self.chain
    }

    pub fn precision(&self) -> (p: Precision)
        ensures
            p == self@.precision,
    {
        self.precision
    }

    pub fn desc(&self) -> (d: Desc)
        ensures
            d@ == self@.desc,
    {
        bytes_clone(&self.desc)
    }

    pub fn set_desc(&mut self, desc: Desc)
        ensures
            final(self)@ == (AssetView { desc: desc@, ..old(self)@ }),
    {
        self.desc = desc;
    }

    /// An independent copy.
    pub fn duplicate(&self) -> (a: Asset)
        ensures
            a@ == self@,
    {
        Asset {
            token: bytes_clone(&self.token),
            token_name: bytes_clone(&self.token_name),
            chain: self.chain,
            precision: self.precision,
            desc: bytes_clone(&self.desc),
        }
    }
}

} // verus!
