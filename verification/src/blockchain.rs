//! The header chain: every header that was accepted, the best chain among
//! them, and the rules by which the best chain grows, shrinks and switches
//! to a longer branch.

use vstd::prelude::*;
use crate::bitcoin::BlockHeader;
use crate::primitives::{lemma_take_to_set, H256};
use crate::table::Table;

verus! {

/// The tip of the best chain.
#[derive(Clone, Copy, PartialEq, Eq, Structural, Debug)]
pub struct BestHeader {
    /// Height of the best block.
    pub number: u32,
    /// Hash of the best block.
    pub hash: H256,
}

/// How a branch relates to the best chain.
#[derive(Debug)]
pub struct SideChainOrigin {
    /// Height of the newest block that the branch shares with the best chain.
    pub ancestor: u32,
    /// Blocks of the branch, oldest first.
    pub canonized_route: Vec<H256>,
    /// Blocks of the best chain above the ancestor, oldest first.
    pub decanonized_route: Vec<H256>,
    /// Height of the new block.
    pub block_number: u32,
}

/// Where a header stands with respect to the chain.
#[derive(Debug)]
pub enum BlockOrigin {
    /// The header is stored already.
    KnownBlock,
    /// The header extends the best chain.
    CanonChain { block_number: u32 },
    /// The header extends a branch that stays shorter than the best chain.
    SideChain(SideChainOrigin),
    /// The header extends a branch that thereby becomes the best chain.
    SideChainBecomingCanonChain(SideChainOrigin),
}

/// A [`SideChainOrigin`] as plain values.
pub struct SideChainOriginView {
    pub ancestor: u32,
    pub canonized_route: Seq<H256>,
    pub decanonized_route: Seq<H256>,
    pub block_number: u32,
}

/// A [`BlockOrigin`] as plain values.
pub enum BlockOriginView {
    KnownBlock,
    CanonChain { block_number: u32 },
    SideChain(SideChainOriginView),
    SideChainBecomingCanonChain(SideChainOriginView),
}

impl View for SideChainOrigin {
    type V = SideChainOriginView;

    open spec fn view(&self) -> SideChainOriginView {
        SideChainOriginView {
            ancestor: self.ancestor,
            canonized_route: self.canonized_route@,
            decanonized_route: self.decanonized_route@,
            block_number: self.block_number,
        }
    }
}

impl View for BlockOrigin {
    type V = BlockOriginView;

    open spec fn view(&self) -> BlockOriginView {
        match self {
            BlockOrigin::KnownBlock => BlockOriginView::KnownBlock,
            BlockOrigin::CanonChain { block_number } => BlockOriginView::CanonChain {
                block_number: *block_number,
            },
            BlockOrigin::SideChain(o) => BlockOriginView::SideChain(o@),
            BlockOrigin::SideChainBecomingCanonChain(o) => BlockOriginView::SideChainBecomingCanonChain(
                o@,
            ),
        }
    }
}

/// Why the chain refused something.
#[derive(Clone, Copy, PartialEq, Eq, Debug)]
pub enum ChainErr {
    /// The block does not follow the best block.
    CannotCanonize,
    /// The parent of the block is not stored.
    UnknownParent,
    /// A block that should be stored is not.
    NotFound,
    /// The branch leaves the best chain too far back.
    AncientFork,
    Unreachable,
    CanonizeMustZero,
    DecanonizeMustZero,
    /// The best chain is not the one that the branch was measured against.
    ForkErr,
    OtherErr(&'static str),
}

impl ChainErr {
    /// The refusal in words.
    pub open spec fn spec_info(&self) -> &'static str {
        match *self {
            ChainErr::CannotCanonize => "Cannot canonize block",
            ChainErr::UnknownParent => "Block parent is unknown",
            ChainErr::NotFound => "Not to find orphaned side chain in header collection; qed",
            ChainErr::AncientFork => "Fork is too long to proceed",
            ChainErr::Unreachable => "should not occur",
            ChainErr::CanonizeMustZero => "[canonize] must be zero in this case",
            ChainErr::DecanonizeMustZero => "[decanonize] must be zero in this case",
            ChainErr::ForkErr => "the hash should same",
            ChainErr::OtherErr(s) => s,
        }
    }

    #[verifier::when_used_as_spec(spec_info)]
    pub fn info(&self) -> (s: &'static str)
        ensures
            s == self.spec_info(),
    {
        match *self {
            ChainErr::CannotCanonize => "Cannot canonize block",
            ChainErr::UnknownParent => "Block parent is unknown",
            ChainErr::NotFound => "Not to find orphaned side chain in header collection; qed",
            ChainErr::AncientFork => "Fork is too long to proceed",
            ChainErr::Unreachable => "should not occur",
            ChainErr::CanonizeMustZero => "[canonize] must be zero in this case",
            ChainErr::DecanonizeMustZero => "[decanonize] must be zero in this case",
            ChainErr::ForkErr => "the hash should same",
            ChainErr::OtherErr(s) => s,
        }
    }
}

/// A stored header with what the chain knows about it.
#[derive(Debug)]
pub struct BlockHeaderInfo {
    pub header: BlockHeader,
    pub height: u32,
    /// Whether enough blocks were built on this one for its transactions to count.
    pub confirmed: bool,
    /// Transactions of this block that were relayed.
    pub txid_list: Vec<H256>,
}

/// A [`BlockHeaderInfo`] as plain values.
pub struct HeaderInfoView {
    pub header: BlockHeader,
    pub height: u32,
    pub confirmed: bool,
    pub txid_list: Seq<H256>,
}

impl View for BlockHeaderInfo {
    type V = HeaderInfoView;

    open spec fn view(&self) -> HeaderInfoView {
        HeaderInfoView {
            header: self.header,
            height: self.height,
            confirmed: self.confirmed,
            txid_list: self.txid_list@,
        }
    }
}

/// Copies a list of hashes.
pub fn clone_hashes(v: &Vec<H256>) -> (out: Vec<H256>)
    ensures
        out@ == v@,
{
    let mut out: Vec<H256> = Vec::new();
    let mut i: usize = 0;
    while i < v.len()
        invariant
            i <= v.len(),
            out@ == v@.take(i as int),
        decreases v.len() - i,
    {
        out.push(v[i]);
        assert(out@ =~= v@.take(i + 1));
        i += 1;
    }
    assert(v@.take(v.len() as int) =~= v@);
    out
}

impl BlockHeaderInfo {
    pub fn duplicate(&self) -> (info: BlockHeaderInfo)
        ensures
            info@ == self@,
    {
        BlockHeaderInfo {
            header: self.header,
            height: self.height,
            confirmed: self.confirmed,
            txid_list: clone_hashes(&self.txid_list),
        }
    }
}

/// Settings of the chain.
#[derive(Clone, Copy, PartialEq, Eq, Structural, Debug)]
pub struct Params {
    /// How many blocks a branch may be followed back in search of the best chain.
    pub max_fork_route_preset: u32,
    /// How many blocks must be built on a block before it is confirmed.
    pub confirmations: u32,
    /// How many heights below a new header are kept.
    pub reserved_block: u32,
}

/// The chain as plain values.
pub struct ChainState {
    /// Every stored header, by its hash.
    pub headers: Map<H256, HeaderInfoView>,
    /// Hashes of the stored headers, by height.
    pub hashes_at: Map<u32, Seq<H256>>,
    /// The best chain, oldest block first; its last block is the best block.
    pub main: Seq<H256>,
    /// Height of the first block of `main`.
    pub base: u32,
    pub params: Params,
    /// Hash and height of the block the chain started from.
    pub genesis: (H256, u32),
}

impl ChainState {
    /// The tip of the best chain.
    pub open spec fn best(self) -> BestHeader {
        BestHeader { number: (self.base + self.main.len() - 1) as u32, hash: self.main.last() }
    }

    /// Whether `hash` is a block of the best chain.
    pub open spec fn on_main(self, hash: H256) -> bool {
        self.main.contains(hash)
    }

    /// Height of a block of the best chain.
    pub open spec fn number_of(self, hash: H256) -> int {
        self.base + self.main.index_of(hash)
    }

    /// Hash of the parent of the stored block `hash`.
    pub open spec fn parent(self, hash: H256) -> H256 {
        self.headers[hash].header.previous_header_hash
    }

    /// The block reached from `hash` by following parents `steps` times; the walk stays where
    /// a block is not stored.
    pub open spec fn walk_back(self, hash: H256, steps: nat) -> H256
        decreases steps,
    {
        if steps == 0 {
            hash
        } else if self.headers.dom().contains(hash) {
            self.walk_back(self.parent(hash), (steps - 1) as nat)
        } else {
            hash
        }
    }

    /// How many parents are followed from the parent of a new tip to the block it confirms.
    pub open spec fn confirm_steps(self) -> nat {
        if self.params.confirmations == 0 {
            0
        } else {
            (self.params.confirmations - 1) as nat
        }
    }

    /// The block that a tip `tip` confirms, whether it is stored or not.
    pub open spec fn confirm_target(self, tip: HeaderInfoView) -> H256 {
        self.walk_back(tip.header.previous_header_hash, self.confirm_steps())
    }

    /// The block that becomes confirmed when `tip` becomes the tip, if there is one.
    pub open spec fn newly_confirmed(self, tip: HeaderInfoView) -> Option<H256> {
        let target = self.confirm_target(tip);
        if self.headers.dom().contains(target) && !self.headers[target].confirmed {
            Some(target)
        } else {
            None
        }
    }

    /// The state with `hash` marked as confirmed.
    pub open spec fn with_confirmed(self, hash: H256) -> ChainState {
        ChainState {
            headers: self.headers.insert(
                hash,
                HeaderInfoView { confirmed: true, ..self.headers[hash] },
            ),
            ..self
        }
    }

    /// The state after the block that `tip` confirms was marked.
    pub open spec fn confirming(self, tip: HeaderInfoView) -> ChainState {
        match self.newly_confirmed(tip) {
            Some(target) => self.with_confirmed(target),
            None => self,
        }
    }

    /// Whether `hash` can become the best block: it is stored, it follows the best block and
    /// its height is the next one.
    pub open spec fn can_canonize(self, hash: H256) -> bool {
        &&& self.headers.dom().contains(hash)
        &&& self.parent(hash) == self.best().hash
        &&& self.headers[hash].height == self.best().number + 1
    }

    /// The state after `hash` became the best block, confirmations left aside.
    pub open spec fn extended(self, hash: H256) -> ChainState {
        ChainState { main: self.main.push(hash), ..self }
    }

    /// The state after `hash` became the best block.
    pub open spec fn canonized(self, hash: H256) -> ChainState {
        self.extended(hash).confirming(self.headers[hash])
    }

    /// Whether the best block can be taken off the best chain: it is not the only block of it.
    pub open spec fn can_decanonize(self) -> bool {
        self.main.len() > 1
    }

    /// The state after the best block was taken off the best chain.
    pub open spec fn decanonized(self) -> ChainState {
        ChainState { main: self.main.drop_last(), ..self }
    }

    /// The state after the last `n` blocks were taken off the best chain.
    pub open spec fn decanonized_by(self, n: nat) -> ChainState
        decreases n,
    {
        if n == 0 {
            self
        } else {
            self.decanonized_by((n - 1) as nat).decanonized()
        }
    }

    /// Whether the blocks of `route` can become best blocks one after the other.
    pub open spec fn can_canonize_all(self, route: Seq<H256>) -> bool
        decreases route.len(),
    {
        if route.len() == 0 {
            true
        } else {
            self.can_canonize_all(route.drop_last()) && self.canonized_all(
                route.drop_last(),
            ).can_canonize(route.last())
        }
    }

    /// The state after the blocks of `route` became best blocks one after the other.
    pub open spec fn canonized_all(self, route: Seq<H256>) -> ChainState
        decreases route.len(),
    {
        if route.len() == 0 {
            self
        } else {
            self.canonized_all(route.drop_last()).canonized(route.last())
        }
    }

    /// The blocks that became confirmed while the blocks of `route` became best blocks.
    pub open spec fn confirmed_along(self, route: Seq<H256>) -> Seq<H256>
        decreases route.len(),
    {
        if route.len() == 0 {
            Seq::empty()
        } else {
            let before = self.canonized_all(route.drop_last());
            let last = match before.extended(route.last()).newly_confirmed(
                before.headers[route.last()],
            ) {
                Some(h) => seq![h],
                None => Seq::empty(),
            };
            self.confirmed_along(route.drop_last()) + last
        }
    }

    /// Whether the best chain ends with the blocks of `decanonized`.
    pub open spec fn ends_with(self, decanonized: Seq<H256>) -> bool {
        decanonized.len() < self.main.len() && self.main.subrange(
            self.main.len() - decanonized.len(),
            self.main.len() as int,
        ) == decanonized
    }

    /// Whether the best chain can switch: it ends with `decanonized`, and once these blocks
    /// are taken off, the blocks of `canonized` can become best blocks one after the other.
    pub open spec fn can_fork(self, decanonized: Seq<H256>, canonized: Seq<H256>) -> bool {
        self.ends_with(decanonized) && self.decanonized_by(decanonized.len()).can_canonize_all(
            canonized,
        )
    }

    /// The state after the best chain switched from `decanonized` to `canonized`.
    pub open spec fn forked(self, decanonized: Seq<H256>, canonized: Seq<H256>) -> ChainState {
        self.decanonized_by(decanonized.len()).canonized_all(canonized)
    }
}


impl ChainState {
    /// What holds of every chain: the best chain is a chain of stored headers of consecutive
    /// heights, each the parent of the next; every header is stored under its own hash and
    /// listed once at its height; and every header lies one above its parent, where its
    /// parent is stored.
    pub open spec fn consistent(self) -> bool {
        &&& self.main.len() >= 1
        &&& self.base + self.main.len() - 1 <= u32::MAX
        &&& forall|i: int|
            0 <= i < self.main.len() ==> self.headers.dom().contains(#[trigger] self.main[i])
                && self.headers[self.main[i]].height == self.base + i
        &&& forall|i: int|
            1 <= i < self.main.len() ==> self.parent(#[trigger] self.main[i]) == self.main[i - 1]
        &&& forall|h: H256|
            self.headers.dom().contains(h) ==> (#[trigger] self.headers[h]).header.hash == h
        &&& forall|h: H256|
            self.headers.dom().contains(h) ==> self.hashes_at.dom().contains(
                (#[trigger] self.headers[h]).height,
            ) && self.hashes_at[self.headers[h].height].contains(h)
        &&& forall|n: u32, j: int|
            self.hashes_at.dom().contains(n) && 0 <= j < self.hashes_at[n].len()
                ==> self.headers.dom().contains(#[trigger] self.hashes_at[n][j])
                && self.headers[self.hashes_at[n][j]].height == n
        &&& forall|n: u32|
            self.hashes_at.dom().contains(n) ==> (#[trigger] self.hashes_at[n]).no_duplicates()
        &&& self.heights_follow()
    }

    /// Whether every stored header lies one above its parent, where its parent is stored.
    pub open spec fn heights_follow(self) -> bool {
        forall|h: H256|
            self.headers.dom().contains(h) && self.headers.dom().contains(#[trigger] self.parent(h))
                && self.parent(h) != h ==> self.headers[h].height == self.headers[self.parent(
                h,
            )].height + 1
    }

    /// Whether a stored header names `hash` as its parent.
    pub open spec fn names_as_parent(self, hash: H256) -> bool {
        exists|y: H256| self.headers.dom().contains(y) && #[trigger] self.parent(y) == hash
    }

    /// Following parents one step further.
    pub proof fn lemma_walk_step(self, hash: H256, n: nat)
        ensures
            self.walk_back(hash, n + 1) == if self.headers.dom().contains(self.walk_back(hash, n)) {
                self.parent(self.walk_back(hash, n))
            } else {
                self.walk_back(hash, n)
            },
        decreases n,
    {
        if n == 0 {
            assert(self.walk_back(hash, 1) == if self.headers.dom().contains(hash) {
                self.walk_back(self.parent(hash), 0)
            } else {
                hash
            });
        } else if self.headers.dom().contains(hash) {
            self.lemma_walk_step(self.parent(hash), (n - 1) as nat);
        }
    }

    /// Once the walk has reached a block that is not stored, it stays there.
    pub proof fn lemma_walk_stuck(self, hash: H256, n: nat, m: nat)
        requires
            n <= m,
            !self.headers.dom().contains(self.walk_back(hash, n)),
        ensures
            self.walk_back(hash, m) == self.walk_back(hash, n),
        decreases m - n,
    {
        if n < m {
            self.lemma_walk_stuck(hash, n, (m - 1) as nat);
            self.lemma_walk_step(hash, (m - 1) as nat);
        }
    }

    /// Taking the last `n` blocks off the best chain leaves its first blocks, and nothing else
    /// changes.
    pub proof fn lemma_decanonized_by(self, n: nat)
        requires
            n <= self.main.len(),
        ensures
            self.decanonized_by(n) == (ChainState {
                main: self.main.take(self.main.len() - n),
                ..self
            }),
        decreases n,
    {
        if n == 0 {
            assert(self.main.take(self.main.len() as int) =~= self.main);
        } else {
            self.lemma_decanonized_by((n - 1) as nat);
            assert(self.main.take(self.main.len() - (n - 1)).drop_last() =~= self.main.take(
                self.main.len() - n,
            ));
        }
    }

    /// Heights still follow where no header was added and the headers kept their parents and
    /// heights.
    pub proof fn lemma_heights_kept(self, after: ChainState)
        requires
            self.heights_follow(),
            forall|h: H256|
                after.headers.dom().contains(h) ==> self.headers.dom().contains(h)
                    && (#[trigger] after.headers[h]).header == self.headers[h].header
                    && after.headers[h].height == self.headers[h].height,
        ensures
            after.heights_follow(),
    {
        assert forall|h: H256|
            after.headers.dom().contains(h) && after.headers.dom().contains(
                #[trigger] after.parent(h),
            ) && after.parent(h) != h implies after.headers[h].height == after.headers[after.parent(
            h,
        )].height + 1 by {
            assert(after.headers[h].header == self.headers[h].header);
            assert(after.headers[after.parent(h)].height == self.headers[after.parent(h)].height);
            assert(self.parent(h) == after.parent(h));
        }
    }

    /// Marking a block as confirmed changes nothing else of a consistent chain.
    pub proof fn lemma_confirming(self, tip: HeaderInfoView)
        requires
            self.consistent(),
        ensures
            self.confirming(tip).consistent(),
            self.confirming(tip).main == self.main,
            self.confirming(tip).base == self.base,
            self.confirming(tip).hashes_at == self.hashes_at,
            self.confirming(tip).params == self.params,
            self.confirming(tip).genesis == self.genesis,
            self.confirming(tip).headers.dom() == self.headers.dom(),
            forall|h: H256|
                self.headers.dom().contains(h) ==> (#[trigger] self.confirming(tip).headers[h])
                    == (HeaderInfoView {
                    confirmed: self.confirming(tip).headers[h].confirmed,
                    ..self.headers[h]
                }) && (self.headers[h].confirmed ==> self.confirming(tip).headers[h].confirmed),
    {
        let after = self.confirming(tip);
        match self.newly_confirmed(tip) {
            Some(target) => {
                assert(after.headers.dom() =~= self.headers.dom());
                assert forall|h: H256| after.headers.dom().contains(h) implies (
                #[trigger] after.headers[h]).header.hash == h by {
                    assert(self.headers[h].header.hash == h);
                }
                assert forall|h: H256| after.headers.dom().contains(h) implies after.hashes_at.dom().contains(
                    (#[trigger] after.headers[h]).height,
                ) && after.hashes_at[after.headers[h].height].contains(h) by {
                    assert(self.headers[h].height == after.headers[h].height);
                }
                self.lemma_heights_kept(after);
            },
            None => {},
        }
    }

    /// The best chain after a block became the best block.
    pub proof fn lemma_canonized(self, hash: H256)
        requires
            self.consistent(),
            self.can_canonize(hash),
        ensures
            self.canonized(hash).consistent(),
            self.canonized(hash).main == self.main.push(hash),
            self.canonized(hash).base == self.base,
            self.canonized(hash).hashes_at == self.hashes_at,
            self.canonized(hash).params == self.params,
            self.canonized(hash).genesis == self.genesis,
            self.canonized(hash).headers.dom() == self.headers.dom(),
            forall|h: H256|
                self.headers.dom().contains(h) ==> (#[trigger] self.canonized(hash).headers[h])
                    == (HeaderInfoView {
                    confirmed: self.canonized(hash).headers[h].confirmed,
                    ..self.headers[h]
                }) && (self.headers[h].confirmed ==> self.canonized(hash).headers[h].confirmed),
    {
        let ext = self.extended(hash);
        assert(ext.consistent()) by {
            self.lemma_heights_kept(ext);
            assert forall|i: int| 0 <= i < ext.main.len() implies ext.headers.dom().contains(
                #[trigger] ext.main[i],
            ) && ext.headers[ext.main[i]].height == ext.base + i by {
                if i < self.main.len() {
                    assert(ext.main[i] == self.main[i]);
                }
            }
            assert forall|i: int| 1 <= i < ext.main.len() implies ext.parent(#[trigger] ext.main[i])
                == ext.main[i - 1] by {
                if i < self.main.len() {
                    assert(ext.main[i] == self.main[i]);
                }
            }
        }
        ext.lemma_confirming(self.headers[hash]);
    }
}

/// The header chain.
pub struct Chain {
    headers: Table<H256, BlockHeaderInfo>,
    hashes_at: Table<u32, Vec<H256>>,
    main: Vec<H256>,
    base: u32,
    params: Params,
    genesis: (H256, u32),
}

impl View for Chain {
    type V = ChainState;

    closed spec fn view(&self) -> ChainState {
        ChainState {
            headers: self.headers@.map_values(|i: BlockHeaderInfo| i@),
            hashes_at: self.hashes_at@.map_values(|v: Vec<H256>| v@),
            main: self.main@,
            base: self.base,
            params: self.params,
            genesis: self.genesis,
        }
    }
}

impl Chain {
    /// Well-formedness: the chain is consistent, in the sense of [`ChainState::consistent`].
    pub closed spec fn wf(&self) -> bool {
        &&& self.headers.wf()
        &&& self.hashes_at.wf()
        &&& self@.consistent()
    }

    /// A well-formed chain is consistent.
    pub proof fn lemma_consistent(&self)
        requires
            self.wf(),
        ensures
            self@.consistent(),
    {
    }

    /// A chain that starts from the block `genesis` at height `height`.
    pub fn new(genesis: BlockHeader, height: u32, params: Params) -> (chain: Chain)
        ensures
            chain.wf(),
            chain@ == (ChainState {
                headers: Map::empty().insert(
                    genesis.hash,
                    HeaderInfoView {
                        header: genesis,
                        height,
                        confirmed: true,
                        txid_list: Seq::empty(),
                    },
                ),
                hashes_at: Map::empty().insert(height, seq![genesis.hash]),
                main: seq![genesis.hash],
                base: height,
                params,
                genesis: (genesis.hash, height),
            }),
    {
        let mut headers: Table<H256, BlockHeaderInfo> = Table::new();
        headers.insert(
            &genesis.hash,
            BlockHeaderInfo { header: genesis, height, confirmed: true, txid_list: Vec::new() },
        );
        let mut hashes_at: Table<u32, Vec<H256>> = Table::new();
        let mut list: Vec<H256> = Vec::new();
        list.push(genesis.hash);
        hashes_at.insert(&height, list);
        let mut main: Vec<H256> = Vec::new();
        main.push(genesis.hash);
        let chain = Chain {
            headers,
            hashes_at,
            main,
            base: height,
            params,
            genesis: (genesis.hash, height),
        };
        proof {
            assert(chain@.headers =~= Map::empty().insert(
                genesis.hash,
                HeaderInfoView {
                    header: genesis,
                    height,
                    confirmed: true,
                    txid_list: Seq::empty(),
                },
            ));
            assert(chain@.hashes_at =~= Map::empty().insert(height, seq![genesis.hash]));
            assert(chain@.main =~= seq![genesis.hash]);
            assert(seq![genesis.hash][0] == genesis.hash);
        }
        chain
    }

    /// The tip of the best chain.
    pub fn best_index(&self) -> (best: BestHeader)
        requires
            self.wf(),
        ensures
            best == self@.best(),
    {
        let last = self.main.len() - 1;
        BestHeader { number: self.base + last as u32, hash: self.main[last] }
    }

    /// Settings of the chain.
    pub fn params(&self) -> (p: Params)
        ensures
            p == self@.params,
    {
        self.params
    }

    /// Hash and height of the block the chain started from.
    pub fn genesis_info(&self) -> (g: (H256, u32))
        ensures
            g == self@.genesis,
    {
        self.genesis
    }

    /// What is stored of the header with the hash `hash`.
    pub fn block_header_for(&self, hash: &H256) -> (info: Option<&BlockHeaderInfo>)
        requires
            self.wf(),
        ensures
            info.is_some() == self@.headers.dom().contains(*hash),
            info matches Some(i) ==> i@ == self@.headers[*hash],
    {
        self.headers.get(hash)
    }

    /// Hashes of the stored headers of height `height`.
    pub fn block_hash_for(&self, height: u32) -> (hashes: Vec<H256>)
        requires
            self.wf(),
        ensures
            hashes@ == if self@.hashes_at.dom().contains(height) {
                self@.hashes_at[height]
            } else {
                Seq::empty()
            },
    {
        match self.hashes_at.get(&height) {
            Some(list) => clone_hashes(list),
            None => Vec::new(),
        }
    }

    /// Position of `hash` in the best chain.
    fn main_position(&self, hash: &H256) -> (r: Option<usize>)
        requires
            self.wf(),
        ensures
            r.is_some() == self@.on_main(*hash),
            r matches Some(i) ==> i < self.main@.len() && self.main@[i as int] == *hash && i
                == self@.main.index_of(*hash),
    {
        let mut i: usize = 0;
        while i < self.main.len()
            invariant
                self.wf(),
                i <= self.main.len(),
                forall|j: int| 0 <= j < i ==> self.main@[j] != *hash,
            decreases self.main.len() - i,
        {
            if self.main[i] == *hash {
                proof {
                    self.lemma_main_distinct();
                    let k = self@.main.index_of(*hash);
                    assert(self@.main.contains(*hash));
                    assert(self@.main[k] == *hash);
                }
                return Some(i);
            }
            i += 1;
        }
        None
    }

    /// No block occurs twice in the best chain.
    pub proof fn lemma_main_distinct(&self)
        requires
            self.wf(),
        ensures
            self@.main.no_duplicates(),
    {
        assert forall|i: int, j: int|
            0 <= i < self@.main.len() && 0 <= j < self@.main.len() && i != j implies self@.main[i]
            != self@.main[j] by {
            assert(self@.headers[self@.main[i]].height == self@.base + i);
            assert(self@.headers[self@.main[j]].height == self@.base + j);
        }
    }

    /// Height of `hash` if it is a block of the best chain.
    pub fn number_for_hash(&self, hash: &H256) -> (number: Option<u32>)
        requires
            self.wf(),
        ensures
            number.is_some() == self@.on_main(*hash),
            number matches Some(n) ==> n == self@.number_of(*hash),
    {
        match self.main_position(hash) {
            Some(i) => Some(self.base + i as u32),
            None => None,
        }
    }

    /// Marks the block that the tip `tip` confirms, and names it if it was not marked before.
    fn confirm(&mut self, tip: &BlockHeaderInfo) -> (confirmed: Option<H256>)
        requires
            old(self).wf(),
        ensures
            final(self).wf(),
            final(self)@ == old(self)@.confirming(tip@),
            confirmed == old(self)@.newly_confirmed(tip@),
    {
        let cur = self.confirm_target(tip);
        let ghost before = *self;
        let marked = match self.headers.get(&cur) {
            Some(info) => {
                if info.confirmed {
                    None
                } else {
                    let mut copy = info.duplicate();
                    copy.confirmed = true;
                    Some(copy)
                }
            },
            None => None,
        };
        match marked {
            Some(copy) => {
                self.headers.insert(&cur, copy);
                proof {
                    assert(self@.headers =~= before@.with_confirmed(cur).headers);
                    before@.lemma_confirming(tip@);
                }
                Some(cur)
            },
            None => None,
        }
    }

    /// Makes the stored block `hash` the best block, and confirms the block that lies the
    /// confirmation depth behind it. Names the block that became confirmed, if one did.
    pub fn canonize(&mut self, hash: &H256) -> (r: Result<Option<H256>, ChainErr>)
        requires
            old(self).wf(),
        ensures
            final(self).wf(),
            match r {
                Ok(confirmed) => old(self)@.can_canonize(*hash) && final(self)@ == old(
                    self,
                )@.canonized(*hash) && confirmed == old(self)@.extended(*hash).newly_confirmed(
                    old(self)@.headers[*hash],
                ),
                Err(e) => !old(self)@.can_canonize(*hash) && *final(self) == *old(self) && e == if old(
                    self,
                )@.headers.dom().contains(*hash) {
                    ChainErr::CannotCanonize
                } else {
                    ChainErr::NotFound
                },
            },
    {
        let best = self.best_index();
        let tip = match self.headers.get(hash) {
            Some(info) => info.duplicate(),
            None => {
                return Err(ChainErr::NotFound);
            },
        };
        if !(tip.header.previous_header_hash == best.hash) || tip.height == 0 || tip.height - 1
            != best.number {
            return Err(ChainErr::CannotCanonize);
        }
        let ghost before = *self;
        self.main.push(*hash);
        proof {
            assert(self@ == before@.extended(*hash));
            before@.lemma_canonized(*hash);
            let ext = before@.extended(*hash);
            assert(ext.consistent()) by {
                before@.lemma_heights_kept(ext);
                assert forall|i: int| 0 <= i < ext.main.len() implies ext.headers.dom().contains(
                    #[trigger] ext.main[i],
                ) && ext.headers[ext.main[i]].height == ext.base + i by {
                    if i < before@.main.len() {
                        assert(ext.main[i] == before@.main[i]);
                    }
                }
                assert forall|i: int| 1 <= i < ext.main.len() implies ext.parent(
                    #[trigger] ext.main[i],
                ) == ext.main[i - 1] by {
                    if i < before@.main.len() {
                        assert(ext.main[i] == before@.main[i]);
                    }
                }
            }
        }
        let confirmed = self.confirm(&tip);
        Ok(confirmed)
    }

    /// Takes the best block off the best chain, which then ends with its parent.
    pub fn decanonize(&mut self) -> (r: Result<H256, ChainErr>)
        requires
            old(self).wf(),
        ensures
            final(self).wf(),
            match r {
                Ok(hash) => old(self)@.can_decanonize() && hash == old(self)@.best().hash
                    && final(self)@ == old(self)@.decanonized(),
                Err(e) => !old(self)@.can_decanonize() && *final(self) == *old(self) && e
                    == ChainErr::NotFound,
            },
    {
        if self.main.len() <= 1 {
            return Err(ChainErr::NotFound);
        }
        let ghost before = *self;
        let hash = match self.main.pop() {
            Some(hash) => hash,
            None => {
                return Err(ChainErr::NotFound);
            },
        };
        proof {
            before@.lemma_heights_kept(self@);
            assert(self@.main =~= before@.main.drop_last());
            assert forall|i: int| 0 <= i < self@.main.len() implies self@.headers.dom().contains(
                #[trigger] self@.main[i],
            ) && self@.headers[self@.main[i]].height == self@.base + i by {
                assert(self@.main[i] == before@.main[i]);
            }
            assert forall|i: int| 1 <= i < self@.main.len() implies self@.parent(
                #[trigger] self@.main[i],
            ) == self@.main[i - 1] by {
                assert(self@.main[i] == before@.main[i]);
            }
        }
        Ok(hash)
    }

    /// Whether the best block can be taken off the best chain.
    pub fn can_rollback(&self) -> (can: bool)
        requires
            self.wf(),
        ensures
            can == self@.can_decanonize(),
    {
        self.main.len() > 1
    }

    /// Takes the best block off the best chain and hands back its hash.
    pub fn rollback_best(&mut self) -> (r: Result<H256, ChainErr>)
        requires
            old(self).wf(),
        ensures
            final(self).wf(),
            match r {
                Ok(hash) => old(self)@.can_decanonize() && hash == old(self)@.best().hash
                    && final(self)@ == old(self)@.decanonized(),
                Err(e) => !old(self)@.can_decanonize() && *final(self) == *old(self) && e
                    == ChainErr::NotFound,
            },
    {
        self.decanonize()
    }
}


/// A walk result with `route` put in front of the blocks it found.
pub open spec fn prepend_route(route: Seq<H256>, rest: Result<(Seq<H256>, H256), ChainErr>) -> Result<
    (Seq<H256>, H256),
    ChainErr,
> {
    match rest {
        Ok((found, ancestor)) => Ok((route + found, ancestor)),
        Err(e) => Err(e),
    }
}

impl ChainState {
    /// Follows parents from `start` until a block of the best chain is met, looking at no
    /// more than `fuel` blocks. Gives the blocks passed, newest first, and the block met.
    pub open spec fn side_walk(self, start: H256, fuel: nat) -> Result<(Seq<H256>, H256), ChainErr>
        decreases fuel,
    {
        if fuel == 0 {
            Err(ChainErr::AncientFork)
        } else if self.on_main(start) {
            Ok((Seq::empty(), start))
        } else if !self.headers.dom().contains(start) {
            Err(ChainErr::NotFound)
        } else {
            prepend_route(seq![start], self.side_walk(self.parent(start), (fuel - 1) as nat))
        }
    }

    /// Whether one of `blocks` is confirmed.
    pub open spec fn any_confirmed(self, blocks: Seq<H256>) -> bool {
        exists|j: int|
            0 <= j < blocks.len() && self.headers.dom().contains(#[trigger] blocks[j])
                && self.headers[blocks[j]].confirmed
    }

    /// Where `header` stands with respect to the chain, or why it is refused. The checks are
    /// made in this order: the header is known; its parent is not stored; its height would
    /// leave the range of heights; it lies further behind the best block than the
    /// confirmation depth; a stored header names it as its parent, so that it comes after its
    /// child; it extends the best chain; or it extends a branch, which is then followed back
    /// to the best chain.
    pub open spec fn origin(self, header: BlockHeader) -> Result<BlockOriginView, ChainErr> {
        let prev = header.previous_header_hash;
        if self.headers.dom().contains(header.hash) {
            Ok(BlockOriginView::KnownBlock)
        } else if !self.headers.dom().contains(prev) {
            Err(ChainErr::UnknownParent)
        } else if self.headers[prev].height == u32::MAX {
            Err(ChainErr::OtherErr("block height overflow"))
        } else {
            let height = (self.headers[prev].height + 1) as u32;
            if height + self.params.confirmations < self.best().number {
                Err(ChainErr::AncientFork)
            } else if self.names_as_parent(header.hash) {
                Err(ChainErr::OtherErr("block is the parent of a stored block"))
            } else if prev == self.best().hash {
                Ok(BlockOriginView::CanonChain { block_number: height })
            } else {
                match self.side_walk(prev, self.params.max_fork_route_preset as nat) {
                    Err(e) => Err(e),
                    Ok((route, ancestor)) => {
                        let a = self.main.index_of(ancestor);
                        let o = SideChainOriginView {
                            ancestor: (self.base + a) as u32,
                            canonized_route: route.reverse(),
                            decanonized_route: self.main.subrange(a + 1, self.main.len() as int),
                            block_number: height,
                        };
                        if height > self.best().number {
                            if self.any_confirmed(o.decanonized_route) {
                                Err(ChainErr::AncientFork)
                            } else if !self.can_fork(o.decanonized_route, o.canonized_route)
                                || self.forked(o.decanonized_route, o.canonized_route).best() != (
                            BestHeader { number: (height - 1) as u32, hash: prev }) {
                                Err(ChainErr::ForkErr)
                            } else {
                                Ok(BlockOriginView::SideChainBecomingCanonChain(o))
                            }
                        } else {
                            Ok(BlockOriginView::SideChain(o))
                        }
                    },
                }
            }
        }
    }

    /// Hashes listed at `height`.
    pub open spec fn listed_at(self, height: u32) -> Seq<H256> {
        if self.hashes_at.dom().contains(height) {
            self.hashes_at[height]
        } else {
            Seq::empty()
        }
    }

    /// The state with `header` stored at `height`: not confirmed, with no transactions, and
    /// off the best chain.
    pub open spec fn stored(self, header: BlockHeader, height: u32) -> ChainState {
        ChainState {
            headers: self.headers.insert(
                header.hash,
                HeaderInfoView { header, height, confirmed: false, txid_list: Seq::empty() },
            ),
            hashes_at: self.hashes_at.insert(height, self.listed_at(height).push(header.hash)),
            ..self
        }
    }

    /// The state after `header` was handed in: unchanged where the header is known or refused.
    pub open spec fn inserted(self, header: BlockHeader) -> ChainState {
        match self.origin(header) {
            Ok(BlockOriginView::CanonChain { block_number }) => self.stored(
                header,
                block_number,
            ).canonized(header.hash),
            Ok(BlockOriginView::SideChain(o)) => self.stored(header, o.block_number),
            Ok(BlockOriginView::SideChainBecomingCanonChain(o)) => self.forked(
                o.decanonized_route,
                o.canonized_route,
            ).stored(header, o.block_number).canonized(header.hash),
            _ => self,
        }
    }

    /// The blocks that became confirmed when `header` was handed in, in the order in which
    /// they did.
    pub open spec fn confirmed_by(self, header: BlockHeader) -> Seq<H256> {
        match self.origin(header) {
            Ok(BlockOriginView::CanonChain { block_number }) => {
                let s = self.stored(header, block_number);
                match s.extended(header.hash).newly_confirmed(s.headers[header.hash]) {
                    Some(h) => seq![h],
                    None => Seq::empty(),
                }
            },
            Ok(BlockOriginView::SideChainBecomingCanonChain(o)) => {
                let mid = self.decanonized_by(o.decanonized_route.len());
                let s = self.forked(o.decanonized_route, o.canonized_route).stored(
                    header,
                    o.block_number,
                );
                mid.confirmed_along(o.canonized_route) + match s.extended(
                    header.hash,
                ).newly_confirmed(s.headers[header.hash]) {
                    Some(h) => seq![h],
                    None => Seq::empty(),
                }
            },
            _ => Seq::empty(),
        }
    }

    /// A consistent chain stays consistent when blocks are taken off its best chain.
    pub proof fn lemma_truncated(self, n: nat)
        requires
            self.consistent(),
            n < self.main.len(),
        ensures
            self.decanonized_by(n).consistent(),
            self.decanonized_by(n).best() == (BestHeader {
                number: (self.base + self.main.len() - 1 - n) as u32,
                hash: self.main[self.main.len() - 1 - n],
            }),
    {
        self.lemma_decanonized_by(n);
        let t = self.decanonized_by(n);
        self.lemma_heights_kept(t);
        assert forall|i: int| 0 <= i < t.main.len() implies t.headers.dom().contains(
            #[trigger] t.main[i],
        ) && t.headers[t.main[i]].height == t.base + i by {
            assert(t.main[i] == self.main[i]);
        }
        assert forall|i: int| 1 <= i < t.main.len() implies t.parent(#[trigger] t.main[i])
            == t.main[i - 1] by {
            assert(t.main[i] == self.main[i]);
        }
    }

    /// What a valid route leaves behind: the route is appended to the best chain, and of the
    /// headers only the confirmation marks change.
    pub proof fn lemma_canonized_all(self, route: Seq<H256>)
        requires
            self.consistent(),
            self.can_canonize_all(route),
        ensures
            self.canonized_all(route).consistent(),
            self.canonized_all(route).main == self.main + route,
            self.canonized_all(route).base == self.base,
            self.canonized_all(route).hashes_at == self.hashes_at,
            self.canonized_all(route).params == self.params,
            self.canonized_all(route).genesis == self.genesis,
            self.canonized_all(route).headers.dom() == self.headers.dom(),
            forall|h: H256|
                self.headers.dom().contains(h) ==> (#[trigger] self.canonized_all(route).headers[h])
                    == (HeaderInfoView {
                    confirmed: self.canonized_all(route).headers[h].confirmed,
                    ..self.headers[h]
                }) && (self.headers[h].confirmed ==> self.canonized_all(route).headers[h].confirmed),
        decreases route.len(),
    {
        if route.len() == 0 {
            assert(self.main + route =~= self.main);
        } else {
            self.lemma_canonized_all(route.drop_last());
            let before = self.canonized_all(route.drop_last());
            before.lemma_canonized(route.last());
            assert(before.main.push(route.last()) =~= self.main + route);
        }
    }

    /// A valid route stays valid when it is cut short.
    pub proof fn lemma_route_prefix(self, route: Seq<H256>, i: int)
        requires
            self.can_canonize_all(route),
            0 <= i <= route.len(),
        ensures
            self.can_canonize_all(route.take(i)),
        decreases route.len() - i,
    {
        if i == route.len() {
            assert(route.take(i) =~= route);
        } else {
            self.lemma_route_prefix(route, i + 1);
            assert(route.take(i + 1).drop_last() =~= route.take(i));
        }
    }
}

/// What handing in a header came to.
#[derive(Debug)]
pub struct Inserted {
    /// Where the header stood with respect to the chain.
    pub origin: BlockOrigin,
    /// The blocks that became confirmed, in the order in which they did.
    pub confirmed: Vec<H256>,
}

impl Chain {
    /// Whether the best chain ends with the blocks of `decanonized`.
    fn ends_with(&self, decanonized: &Vec<H256>) -> (r: bool)
        requires
            self.wf(),
        ensures
            r == self@.ends_with(decanonized@),
    {
        let n = decanonized.len();
        let len = self.main.len();
        if n >= len {
            return false;
        }
        let mut j: usize = 0;
        while j < n
            invariant
                n < len,
                len == self.main.len(),
                n == decanonized.len(),
                j <= n,
                forall|k: int| 0 <= k < j ==> self.main@[len - n + k] == decanonized@[k],
            decreases n - j,
        {
            if !(self.main[len - n + j] == decanonized[j]) {
                assert(self@.main.subrange(len - n, len as int)[j as int] != decanonized@[j as int]);
                return false;
            }
            j += 1;
        }
        assert(self@.main.subrange(len - n, len as int) =~= decanonized@);
        true
    }

    /// The tip that the best chain has once the blocks of `canonized` have become best blocks
    /// after its first `kept` blocks, if they can.
    fn route_tip(&self, kept: usize, canonized: &Vec<H256>) -> (tip: Option<BestHeader>)
        requires
            self.wf(),
            1 <= kept <= self@.main.len(),
        ensures
            tip.is_some() == self@.decanonized_by((self@.main.len() - kept) as nat).can_canonize_all(
                canonized@,
            ),
            tip matches Some(best) ==> best == self@.decanonized_by(
                (self@.main.len() - kept) as nat,
            ).canonized_all(canonized@).best(),
    {
        let ghost mid = self@.decanonized_by((self@.main.len() - kept) as nat);
        proof {
            self@.lemma_decanonized_by((self@.main.len() - kept) as nat);
            assert(mid.main.len() == kept);
            assert(mid.main.last() == self@.main[kept - 1]);
        }
        let mut cur_hash = self.main[kept - 1];
        let mut cur_number: u32 = self.base + (kept - 1) as u32;
        let mut i: usize = 0;
        assert(canonized@.take(0) =~= Seq::<H256>::empty());
        assert(mid.main + canonized@.take(0) =~= mid.main);
        while i < canonized.len()
            invariant
                self.wf(),
                i <= canonized.len(),
                kept <= self@.main.len(),
                mid == self@.decanonized_by((self@.main.len() - kept) as nat),
                mid.headers == self@.headers,
                mid.base == self@.base,
                mid.main.len() == kept,
                kept >= 1,
                mid.can_canonize_all(canonized@.take(i as int)),
                cur_number == mid.base + kept + i - 1,
                cur_hash == (mid.main + canonized@.take(i as int)).last(),
            decreases canonized.len() - i,
        {
            let ghost reached = mid.canonized_all(canonized@.take(i as int));
            proof {
                mid.lemma_canonized_all_headers(canonized@.take(i as int));
                assert(canonized@.take(i + 1).drop_last() =~= canonized@.take(i as int));
                assert(canonized@.take(i + 1).last() == canonized@[i as int]);
                assert(reached.best().hash == cur_hash);
                assert(reached.best().number == cur_number);
            }
            let ok = match self.headers.get(&canonized[i]) {
                Some(info) => info.header.previous_header_hash == cur_hash && info.height > 0
                    && info.height - 1 == cur_number,
                None => false,
            };
            assert(ok == reached.can_canonize(canonized@[i as int]));
            if !ok {
                proof {
                    if mid.can_canonize_all(canonized@) {
                        mid.lemma_route_prefix(canonized@, i + 1);
                    }
                }
                return None;
            }
            proof {
                assert((mid.main + canonized@.take(i + 1)).last() == canonized@[i as int]);
            }
            cur_hash = canonized[i];
            cur_number = cur_number + 1;
            i += 1;
        }
        proof {
            assert(canonized@.take(canonized.len() as int) =~= canonized@);
            mid.lemma_canonized_all_headers(canonized@);
        }
        Some(BestHeader { number: cur_number, hash: cur_hash })
    }

    /// The tip that the best chain has once it has switched from `decanonized` to
    /// `canonized`, if it can switch so.
    fn fork_tip(&self, decanonized: &Vec<H256>, canonized: &Vec<H256>) -> (tip: Option<BestHeader>)
        requires
            self.wf(),
        ensures
            tip.is_some() == self@.can_fork(decanonized@, canonized@),
            tip matches Some(best) ==> best == self@.forked(decanonized@, canonized@).best(),
    {
        if !self.ends_with(decanonized) {
            return None;
        }
        self.route_tip(self.main.len() - decanonized.len(), canonized)
    }

    /// Switches the best chain: the blocks of `origin.decanonized_route` are taken off it,
    /// newest first, and the blocks of `origin.canonized_route` become best blocks, oldest
    /// first. Nothing is changed unless the whole switch can be made. Hands back the blocks
    /// that became confirmed.
    pub fn fork(&mut self, origin: &SideChainOrigin) -> (r: Result<Vec<H256>, ChainErr>)
        requires
            old(self).wf(),
        ensures
            final(self).wf(),
            match r {
                Ok(confirmed) => old(self)@.can_fork(
                    origin@.decanonized_route,
                    origin@.canonized_route,
                ) && final(self)@ == old(self)@.forked(
                    origin@.decanonized_route,
                    origin@.canonized_route,
                ) && confirmed@ == old(self)@.decanonized_by(
                    origin@.decanonized_route.len(),
                ).confirmed_along(origin@.canonized_route),
                Err(e) => !old(self)@.can_fork(origin@.decanonized_route, origin@.canonized_route)
                    && *final(self) == *old(self) && e == ChainErr::ForkErr,
            },
    {
        if self.fork_tip(&origin.decanonized_route, &origin.canonized_route).is_none() {
            return Err(ChainErr::ForkErr);
        }
        let n = origin.decanonized_route.len();
        let ghost start = self@;
        let mut k: usize = 0;
        while k < n
            invariant
                self.wf(),
                k <= n,
                n < start.main.len(),
                self@ == start.decanonized_by(k as nat),
            decreases n - k,
        {
            proof {
                start.lemma_decanonized_by(k as nat);
            }
            let _ = self.decanonize();
            k += 1;
        }
        let ghost mid = self@;
        let route = &origin.canonized_route;
        let mut confirmed: Vec<H256> = Vec::new();
        let mut i: usize = 0;
        while i < route.len()
            invariant
                self.wf(),
                i <= route.len(),
                mid.consistent(),
                mid.can_canonize_all(route@),
                self@ == mid.canonized_all(route@.take(i as int)),
                confirmed@ == mid.confirmed_along(route@.take(i as int)),
            decreases route.len() - i,
        {
            proof {
                mid.lemma_route_prefix(route@, i + 1);
                assert(route@.take(i + 1).drop_last() =~= route@.take(i as int));
                assert(route@.take(i + 1).last() == route@[i as int]);
            }
            match self.canonize(&route[i]) {
                Ok(Some(hash)) => {
                    confirmed.push(hash);
                },
                _ => {},
            }
            i += 1;
        }
        assert(route@.take(route.len() as int) =~= route@);
        Ok(confirmed)
    }

    /// Whether a stored header names `hash` as its parent.
    pub fn names_as_parent(&self, hash: &H256) -> (r: bool)
        requires
            self.wf(),
        ensures
            r == self@.names_as_parent(*hash),
    {
        let n = self.headers.len();
        let mut i: usize = 0;
        while i < n
            invariant
                self.wf(),
                i <= n,
                n == self.headers.spec_len(),
                forall|j: int|
                    0 <= j < i ==> (#[trigger] self.headers.values()[j]).header.previous_header_hash
                        != *hash,
            decreases n - i,
        {
            let info = self.headers.value_at(i);
            if info.header.previous_header_hash == *hash {
                proof {
                    self.headers.lemma_position(i as int);
                    let y = self.headers.ids()[i as int];
                    assert(self@.headers.dom().contains(y) && self@.parent(y) == *hash);
                }
                return true;
            }
            i += 1;
        }
        proof {
            assert forall|y: H256| self@.headers.dom().contains(y) implies #[trigger] self@.parent(y)
                != *hash by {
                let p = self.headers.position(y);
                assert(self.headers.ids().contains(y));
                self.headers.lemma_position(p);
                assert(self.headers.values()[p].header.previous_header_hash != *hash);
            }
        }
        false
    }

    /// Follows parents from `start` until a block of the best chain is met. Gives the blocks
    /// passed, newest first, and the position in the best chain of the block met.
    fn side_walk(&self, start: &H256) -> (r: Result<(Vec<H256>, usize), ChainErr>)
        requires
            self.wf(),
        ensures
            match r {
                Ok((route, a)) => a < self@.main.len() && a == self@.main.index_of(self@.main[a as int])
                    && self@.side_walk(*start, self@.params.max_fork_route_preset as nat) == Ok::<
                    (Seq<H256>, H256),
                    ChainErr,
                >((route@, self@.main[a as int])),
                Err(e) => self@.side_walk(*start, self@.params.max_fork_route_preset as nat) == Err::<
                    (Seq<H256>, H256),
                    ChainErr,
                >(e),
            },
    {
        let max = self.params.max_fork_route_preset;
        let mut route: Vec<H256> = Vec::new();
        let mut cur = *start;
        let mut i: u32 = 0;
        proof {
            let whole = self@.side_walk(*start, max as nat);
            if whole is Ok {
                assert(Seq::<H256>::empty() + whole->Ok_0.0 =~= whole->Ok_0.0);
            }
        }
        while i < max
            invariant
                self.wf(),
                i <= max,
                max == self@.params.max_fork_route_preset,
                self@.side_walk(*start, max as nat) == prepend_route(
                    route@,
                    self@.side_walk(cur, (max - i) as nat),
                ),
            decreases max - i,
        {
            match self.main_position(&cur) {
                Some(a) => {
                    assert(route@ + Seq::<H256>::empty() =~= route@);
                    return Ok((route, a));
                },
                None => {
                    let next = match self.headers.get(&cur) {
                        Some(info) => info.header.previous_header_hash,
                        None => {
                            return Err(ChainErr::NotFound);
                        },
                    };
                    let ghost before = route@;
                    route.push(cur);
                    proof {
                        let rest = self@.side_walk(next, (max - i - 1) as nat);
                        if rest is Ok {
                            assert(before + (seq![cur] + rest->Ok_0.0) =~= route@ + rest->Ok_0.0);
                        }
                    }
                    cur = next;
                },
            }
            i += 1;
        }
        Err(ChainErr::AncientFork)
    }

    /// Where `header` stands with respect to the chain: known, on the best chain, on a
    /// branch, or on a branch that it makes the best chain. A header on a branch lies above
    /// the block that the branch shares with the best chain by the blocks of the branch and
    /// one more.
    pub fn block_origin(&self, header: &BlockHeader) -> (r: Result<BlockOrigin, ChainErr>)
        requires
            self.wf(),
        ensures
            match r {
                Ok(o) => self@.origin(*header) == Ok::<BlockOriginView, ChainErr>(o@),
                Err(e) => self@.origin(*header) == Err::<BlockOriginView, ChainErr>(e),
            },
            match r {
                Ok(BlockOrigin::SideChain(o)) | Ok(BlockOrigin::SideChainBecomingCanonChain(o)) =>
                    o.block_number == o.ancestor + o.canonized_route@.len() + 1
                        && o.decanonized_route@ == self@.main.subrange(
                        o.ancestor - self@.base + 1,
                        self@.main.len() as int,
                    ),
                _ => true,
            },
    {
        proof {
            self@.lemma_origin_block_number(*header);
        }
        let prev = header.previous_header_hash;
        if self.headers.contains_key(&header.hash) {
            return Ok(BlockOrigin::KnownBlock);
        }
        let parent_height = match self.headers.get(&prev) {
            Some(info) => info.height,
            None => {
                return Err(ChainErr::UnknownParent);
            },
        };
        if parent_height == u32::MAX {
            return Err(ChainErr::OtherErr("block height overflow"));
        }
        let height = parent_height + 1;
        let best = self.best_index();
        if (height as u64) + (self.params.confirmations as u64) < best.number as u64 {
            return Err(ChainErr::AncientFork);
        }
        if self.names_as_parent(&header.hash) {
            return Err(ChainErr::OtherErr("block is the parent of a stored block"));
        }
        if prev == best.hash {
            return Ok(BlockOrigin::CanonChain { block_number: height });
        }
        let (route, a) = match self.side_walk(&prev) {
            Ok(walked) => walked,
            Err(e) => {
                return Err(e);
            },
        };
        let canonized_route = reversed(&route);
        let (decanonized_route, any_confirmed) = self.main_above(a);
        let origin = SideChainOrigin {
            ancestor: self.base + a as u32,
            canonized_route,
            decanonized_route,
            block_number: height,
        };
        if height > best.number {
            if any_confirmed {
                return Err(ChainErr::AncientFork);
            }
            if !self.leads_to(&origin, &prev, height - 1) {
                return Err(ChainErr::ForkErr);
            }
            Ok(BlockOrigin::SideChainBecomingCanonChain(origin))
        } else {
            Ok(BlockOrigin::SideChain(origin))
        }
    }

    /// The blocks of the best chain above position `a`, oldest first, and whether one of them
    /// is confirmed.
    fn main_above(&self, a: usize) -> (r: (Vec<H256>, bool))
        requires
            self.wf(),
            a < self@.main.len(),
        ensures
            r.0@ == self@.main.subrange(a + 1, self@.main.len() as int),
            r.1 == self@.any_confirmed(r.0@),
    {
        let len = self.main.len();
        let mut decanonized_route: Vec<H256> = Vec::new();
        let mut any_confirmed = false;
        let mut m: usize = a + 1;
        assert(decanonized_route@ =~= self@.main.subrange(a + 1, m as int));
        while m < self.main.len()
            invariant
                self.wf(),
                a + 1 <= m <= self.main.len(),
                decanonized_route@ == self@.main.subrange(a + 1, m as int),
                any_confirmed == self@.any_confirmed(decanonized_route@),
            decreases self.main.len() - m,
        {
            let hash = self.main[m];
            let ghost before = decanonized_route@;
            decanonized_route.push(hash);
            assert(decanonized_route@ =~= self@.main.subrange(a + 1, m + 1));
            let is_confirmed = match self.headers.get(&hash) {
                Some(info) => info.confirmed,
                None => false,
            };
            proof {
                if is_confirmed {
                    assert(decanonized_route@[before.len() as int] == hash);
                }
                if self@.any_confirmed(before) {
                    let j = choose|j: int|
                        0 <= j < before.len() && self@.headers.dom().contains(#[trigger] before[j])
                            && self@.headers[before[j]].confirmed;
                    assert(decanonized_route@[j] == before[j]);
                }
                if self@.any_confirmed(decanonized_route@) && !is_confirmed {
                    let j = choose|j: int|
                        0 <= j < decanonized_route@.len() && self@.headers.dom().contains(
                            #[trigger] decanonized_route@[j],
                        ) && self@.headers[decanonized_route@[j]].confirmed;
                    assert(before[j] == decanonized_route@[j]);
                }
            }
            any_confirmed = any_confirmed || is_confirmed;
            m += 1;
        }
        (decanonized_route, any_confirmed)
    }

    /// Whether the best chain can switch as `origin` says, and then ends with the block
    /// `hash` at height `number`.
    fn leads_to(&self, origin: &SideChainOrigin, hash: &H256, number: u32) -> (ok: bool)
        requires
            self.wf(),
        ensures
            ok == (self@.can_fork(origin@.decanonized_route, origin@.canonized_route)
                && self@.forked(origin@.decanonized_route, origin@.canonized_route).best() == (
            BestHeader { number, hash: *hash })),
    {
        match self.fork_tip(&origin.decanonized_route, &origin.canonized_route) {
            Some(tip) => tip.hash == *hash && tip.number == number,
            None => false,
        }
    }
}

impl ChainState {
    /// Storing a header that was not stored keeps a chain consistent and leaves the best
    /// chain as it is, provided the header is stored one above its parent and is not itself
    /// the parent of a stored header.
    pub proof fn lemma_stored(self, header: BlockHeader, height: u32)
        requires
            self.consistent(),
            !self.headers.dom().contains(header.hash),
            !self.names_as_parent(header.hash),
            self.headers.dom().contains(header.previous_header_hash) ==> height
                == self.headers[header.previous_header_hash].height + 1,
        ensures
            self.stored(header, height).consistent(),
            self.stored(header, height).best() == self.best(),
    {
        let after = self.stored(header, height);
        let list = self.listed_at(height);
        assert forall|h: H256|
            after.headers.dom().contains(h) && after.headers.dom().contains(
                #[trigger] after.parent(h),
            ) && after.parent(h) != h implies after.headers[h].height == after.headers[after.parent(
            h,
        )].height + 1 by {
            if h == header.hash {
            } else {
                assert(self.headers.dom().contains(h));
                assert(after.parent(h) == self.parent(h));
                if self.parent(h) == header.hash {
                    assert(self.names_as_parent(header.hash));
                }
            }
        }
        assert forall|i: int| 0 <= i < after.main.len() implies after.headers.dom().contains(
            #[trigger] after.main[i],
        ) && after.headers[after.main[i]].height == after.base + i by {
            assert(self.headers.dom().contains(self.main[i]));
        }
        assert forall|i: int| 1 <= i < after.main.len() implies after.parent(#[trigger] after.main[i])
            == after.main[i - 1] by {
            assert(self.headers.dom().contains(self.main[i]));
        }
        assert forall|h: H256| after.headers.dom().contains(h) implies after.hashes_at.dom().contains(
            (#[trigger] after.headers[h]).height,
        ) && after.hashes_at[after.headers[h].height].contains(h) by {
            if h == header.hash {
                assert(list.push(header.hash)[list.len() as int] == h);
            } else {
                assert(self.hashes_at[self.headers[h].height].contains(h));
                if self.headers[h].height == height {
                    let j = choose|j: int| 0 <= j < list.len() && list[j] == h;
                    assert(list.push(header.hash)[j] == h);
                }
            }
        }
        assert forall|n: u32, j: int|
            after.hashes_at.dom().contains(n) && 0 <= j < after.hashes_at[n].len()
                implies after.headers.dom().contains(#[trigger] after.hashes_at[n][j])
            && after.headers[after.hashes_at[n][j]].height == n by {
            if n == height {
                if j < list.len() {
                    assert(self.headers.dom().contains(self.hashes_at[n][j]));
                }
            } else {
                assert(self.headers.dom().contains(self.hashes_at[n][j]));
            }
        }
        assert forall|n: u32| after.hashes_at.dom().contains(n) implies (
        #[trigger] after.hashes_at[n]).no_duplicates() by {
            if n == height {
                assert forall|i: int, j: int|
                    0 <= i < list.len() + 1 && 0 <= j < list.len() + 1 && i != j implies list.push(
                    header.hash,
                )[i] != list.push(header.hash)[j] by {
                    if i < list.len() {
                        assert(self.headers.dom().contains(self.hashes_at[n][i]));
                    }
                    if j < list.len() {
                        assert(self.headers.dom().contains(self.hashes_at[n][j]));
                    }
                    if i < list.len() && j < list.len() {
                        assert(self.hashes_at[n].no_duplicates());
                    }
                }
            } else {
                assert(self.hashes_at[n].no_duplicates());
            }
        }
    }
}

impl ChainState {
    /// A walk that starts at a block off the best chain that is its own parent never meets
    /// the best chain.
    pub proof fn lemma_side_walk_own_parent(self, start: H256, fuel: nat)
        requires
            !self.on_main(start),
            self.headers.dom().contains(start),
            self.parent(start) == start,
        ensures
            self.side_walk(start, fuel) is Err,
        decreases fuel,
    {
        if fuel > 0 {
            self.lemma_side_walk_own_parent(start, (fuel - 1) as nat);
        }
    }

    /// A walk that meets the best chain has come down one height with each block it passed:
    /// the block it started from lies as many heights above the block met as blocks were
    /// passed.
    pub proof fn lemma_side_walk_height(self, start: H256, fuel: nat)
        requires
            self.consistent(),
            self.headers.dom().contains(start),
            self.side_walk(start, fuel) is Ok,
        ensures
            self.on_main(self.side_walk(start, fuel)->Ok_0.1),
            self.headers[start].height == self.number_of(self.side_walk(start, fuel)->Ok_0.1)
                + self.side_walk(start, fuel)->Ok_0.0.len(),
        decreases fuel,
    {
        if self.on_main(start) {
            let i = self.main.index_of(start);
            assert(self.main[i] == start);
            assert(self.headers[self.main[i]].height == self.base + i);
        } else {
            let parent = self.parent(start);
            let rest = self.side_walk(parent, (fuel - 1) as nat);
            assert(rest is Ok);
            if parent == start {
                self.lemma_side_walk_own_parent(start, (fuel - 1) as nat);
            }
            if self.on_main(parent) {
                let i = self.main.index_of(parent);
                assert(self.main[i] == parent);
                assert(self.headers.dom().contains(self.main[i]));
            }
            assert(self.headers.dom().contains(parent));
            assert(self.headers[start].height == self.headers[parent].height + 1);
            self.lemma_side_walk_height(parent, (fuel - 1) as nat);
            assert((seq![start] + rest->Ok_0.0).len() == rest->Ok_0.0.len() + 1);
        }
    }

    /// The height of a header on a branch: it lies above the block that its branch shares
    /// with the best chain by the blocks of the branch and one more. The blocks to take off
    /// the best chain are those above that block.
    pub proof fn lemma_origin_block_number(self, header: BlockHeader)
        requires
            self.consistent(),
        ensures
            match self.origin(header) {
                Ok(BlockOriginView::SideChain(o)) | Ok(
                    BlockOriginView::SideChainBecomingCanonChain(o),
                ) => o.block_number == o.ancestor + o.canonized_route.len() + 1 && self.base
                    <= o.ancestor <= self.best().number && o.decanonized_route
                    == self.main.subrange(o.ancestor - self.base + 1, self.main.len() as int)
                    && self.on_main(self.main[o.ancestor - self.base]),
                _ => true,
            },
    {
        match self.origin(header) {
            Ok(BlockOriginView::SideChain(o)) | Ok(BlockOriginView::SideChainBecomingCanonChain(o)) => {
                let prev = header.previous_header_hash;
                let fuel = self.params.max_fork_route_preset as nat;
                self.lemma_side_walk_height(prev, fuel);
                let walked = self.side_walk(prev, fuel)->Ok_0;
                let a = self.main.index_of(walked.1);
                assert(self.main[a] == walked.1);
                assert(walked.0.reverse().len() == walked.0.len());
            },
            _ => {},
        }
    }

    /// Whether the `steps` nearest ancestors of the stored block `hash` are stored, each
    /// another block than its child.
    pub open spec fn descends(self, hash: H256, steps: nat) -> bool
        decreases steps,
    {
        if steps == 0 {
            self.headers.dom().contains(hash)
        } else {
            self.headers.dom().contains(hash) && self.parent(hash) != hash && self.descends(
                self.parent(hash),
                (steps - 1) as nat,
            )
        }
    }

    /// The ancestor that lies `steps` parents behind a stored block lies `steps` heights
    /// below it, where the ancestors between are stored.
    pub proof fn lemma_ancestor_height(self, hash: H256, steps: nat)
        requires
            self.consistent(),
            self.descends(hash, steps),
        ensures
            self.headers.dom().contains(self.walk_back(hash, steps)),
            self.headers[self.walk_back(hash, steps)].height + steps == self.headers[hash].height,
        decreases steps,
    {
        if steps > 0 {
            let parent = self.parent(hash);
            assert(self.descends(parent, (steps - 1) as nat));
            assert(self.headers.dom().contains(parent)) by {
                if steps - 1 == 0 {
                } else {
                }
            }
            assert(self.headers[hash].height == self.headers[parent].height + 1);
            self.lemma_ancestor_height(parent, (steps - 1) as nat);
        }
    }

    /// Whether `info` is what is stored of its header.
    pub open spec fn holds(self, info: HeaderInfoView) -> bool {
        self.headers.dom().contains(info.header.hash) && self.headers[info.header.hash] == info
    }

    /// The block that a stored tip confirms lies the confirmation depth below it, where the
    /// ancestors between are stored.
    pub proof fn lemma_confirm_target(self, tip: HeaderInfoView)
        requires
            self.consistent(),
            self.params.confirmations >= 1,
            self.holds(tip),
            self.descends(tip.header.hash, self.params.confirmations as nat),
        ensures
            self.confirm_target(tip) == self.walk_back(
                tip.header.hash,
                self.params.confirmations as nat,
            ),
            self.headers.dom().contains(self.confirm_target(tip)),
            self.headers[self.confirm_target(tip)].height == tip.height
                - self.params.confirmations,
    {
        self.lemma_ancestor_height(tip.header.hash, self.params.confirmations as nat);
    }

    /// Whether `header` can be stored at `height`: it is not stored, it lies one above its
    /// parent where that is stored, and no stored header names it as its parent.
    pub open spec fn can_store(self, header: BlockHeader, height: u32) -> bool {
        &&& !self.headers.dom().contains(header.hash)
        &&& !self.names_as_parent(header.hash)
        &&& self.headers.dom().contains(header.previous_header_hash) ==> height
            == self.headers[header.previous_header_hash].height + 1
    }

    /// What can be stored stays so where the same headers are stored, with the same parents
    /// and heights.
    pub proof fn lemma_can_store_kept(self, after: ChainState, header: BlockHeader, height: u32)
        requires
            self.can_store(header, height),
            after.headers.dom() == self.headers.dom(),
            forall|h: H256|
                self.headers.dom().contains(h) ==> (#[trigger] after.headers[h]).header
                    == self.headers[h].header && after.headers[h].height == self.headers[h].height,
        ensures
            after.can_store(header, height),
    {
        if after.names_as_parent(header.hash) {
            let y = choose|y: H256|
                after.headers.dom().contains(y) && #[trigger] after.parent(y) == header.hash;
            assert(after.headers[y].header == self.headers[y].header);
            assert(self.parent(y) == header.hash);
        }
        if after.headers.dom().contains(header.previous_header_hash) {
            assert(after.headers[header.previous_header_hash].height
                == self.headers[header.previous_header_hash].height);
        }
    }

    /// A header that is taken in can be stored at the height its origin gives.
    pub proof fn lemma_origin_can_store(self, header: BlockHeader)
        ensures
            match self.origin(header) {
                Ok(BlockOriginView::CanonChain { block_number }) => self.can_store(
                    header,
                    block_number,
                ) && header.previous_header_hash == self.best().hash,
                Ok(BlockOriginView::SideChain(o)) => self.can_store(header, o.block_number),
                Ok(BlockOriginView::SideChainBecomingCanonChain(o)) => self.can_store(
                    header,
                    o.block_number,
                ) && self.can_fork(o.decanonized_route, o.canonized_route) && self.forked(
                    o.decanonized_route,
                    o.canonized_route,
                ).best() == (BestHeader {
                    number: (o.block_number - 1) as u32,
                    hash: header.previous_header_hash,
                }),
                _ => true,
            },
    {
    }
}

impl Chain {
    /// Stores `header` at `height`: not confirmed, with no transactions, and off the best
    /// chain.
    fn store(&mut self, header: &BlockHeader, height: u32)
        requires
            old(self).wf(),
            old(self)@.can_store(*header, height),
        ensures
            final(self).wf(),
            final(self)@ == old(self)@.stored(*header, height),
    {
        let ghost before = *self;
        let info = BlockHeaderInfo {
            header: *header,
            height,
            confirmed: false,
            txid_list: Vec::new(),
        };
        self.headers.insert(&header.hash, info);
        let mut list = match self.hashes_at.get(&height) {
            Some(list) => clone_hashes(list),
            None => Vec::new(),
        };
        list.push(header.hash);
        self.hashes_at.insert(&height, list);
        proof {
            assert(self@.headers =~= before@.stored(*header, height).headers);
            assert(self@.hashes_at =~= before@.stored(*header, height).hashes_at);
            before@.lemma_stored(*header, height);
        }
    }

    /// Stores `header` at `height` and makes it the best block, which it follows. Names the
    /// block that became confirmed, if one did.
    fn store_on_top(&mut self, header: &BlockHeader, height: u32) -> (confirmed: Option<H256>)
        requires
            old(self).wf(),
            old(self)@.can_store(*header, height),
            header.previous_header_hash == old(self)@.best().hash,
            height == old(self)@.best().number + 1,
        ensures
            final(self).wf(),
            final(self)@ == old(self)@.stored(*header, height).canonized(header.hash),
            confirmed == old(self)@.stored(*header, height).extended(header.hash).newly_confirmed(
                old(self)@.stored(*header, height).headers[header.hash],
            ),
    {
        proof {
            old(self)@.lemma_stored(*header, height);
        }
        self.store(header, height);
        match self.canonize(&header.hash) {
            Ok(confirmed) => confirmed,
            Err(_) => None,
        }
    }

    /// Switches the best chain as `origin` says, which it can. Hands back the blocks that
    /// became confirmed.
    fn switch(&mut self, origin: &SideChainOrigin) -> (confirmed: Vec<H256>)
        requires
            old(self).wf(),
            old(self)@.can_fork(origin@.decanonized_route, origin@.canonized_route),
        ensures
            final(self).wf(),
            final(self)@ == old(self)@.forked(origin@.decanonized_route, origin@.canonized_route),
            confirmed@ == old(self)@.decanonized_by(
                origin@.decanonized_route.len(),
            ).confirmed_along(origin@.canonized_route),
            final(self)@.headers.dom() == old(self)@.headers.dom(),
            forall|h: H256|
                old(self)@.headers.dom().contains(h) ==> (#[trigger] final(self)@.headers[h]).header
                    == old(self)@.headers[h].header && final(self)@.headers[h].height == old(
                    self,
                )@.headers[h].height,
    {
        proof {
            let n = origin@.decanonized_route.len();
            old(self)@.lemma_decanonized_by(n);
            old(self)@.decanonized_by(n).lemma_canonized_all_headers(origin@.canonized_route);
        }
        match self.fork(origin) {
            Ok(list) => list,
            Err(_) => Vec::new(),
        }
    }

    /// Takes in `header`. A header that is stored already changes nothing. A header that
    /// extends the best chain becomes the best block; one that makes a branch longer than the
    /// best chain makes that branch the best chain; any other is stored on its branch.
    /// Nothing is changed where the header is refused.
    pub fn insert_best_header(&mut self, header: BlockHeader) -> (r: Result<Inserted, ChainErr>)
        requires
            old(self).wf(),
        ensures
            final(self).wf(),
            match r {
                Ok(inserted) => old(self)@.origin(header) == Ok::<BlockOriginView, ChainErr>(
                    inserted.origin@,
                ) && final(self)@ == old(self)@.inserted(header) && inserted.confirmed@ == old(
                    self,
                )@.confirmed_by(header),
                Err(e) => old(self)@.origin(header) == Err::<BlockOriginView, ChainErr>(e)
                    && *final(self) == *old(self),
            },
    {
        let origin = match self.block_origin(&header) {
            Ok(origin) => origin,
            Err(e) => {
                return Err(e);
            },
        };
        proof {
            self@.lemma_origin_can_store(header);
            self.lemma_consistent();
        }
        let mut confirmed: Vec<H256> = Vec::new();
        match &origin {
            BlockOrigin::KnownBlock => {},
            BlockOrigin::CanonChain { block_number } => {
                match self.store_on_top(&header, *block_number) {
                    Some(hash) => {
                        confirmed.push(hash);
                        assert(confirmed@ =~= seq![hash]);
                    },
                    None => {},
                }
            },
            BlockOrigin::SideChain(o) => {
                self.store(&header, o.block_number);
            },
            BlockOrigin::SideChainBecomingCanonChain(o) => {
                let ghost before = self@;
                confirmed = self.switch(o);
                proof {
                    before.lemma_can_store_kept(self@, header, o.block_number);
                }
                let ghost along = confirmed@;
                match self.store_on_top(&header, o.block_number) {
                    Some(hash) => {
                        confirmed.push(hash);
                        assert(confirmed@ =~= along + seq![hash]);
                    },
                    None => {
                        assert(confirmed@ =~= along + Seq::<H256>::empty());
                    },
                }
            },
        }
        Ok(Inserted { origin, confirmed })
    }

    /// The block that the tip `tip` confirms, whether it is stored or not.
    fn confirm_target(&self, tip: &BlockHeaderInfo) -> (target: H256)
        requires
            self.wf(),
        ensures
            target == self@.confirm_target(tip@),
    {
        let steps: u32 = if self.params.confirmations == 0 {
            0
        } else {
            self.params.confirmations - 1
        };
        let start = tip.header.previous_header_hash;
        let mut cur = start;
        let mut i: u32 = 0;
        while i < steps
            invariant
                self.wf(),
                i <= steps,
                cur == self@.walk_back(start, i as nat),
            ensures
                cur == self@.walk_back(start, steps as nat),
            decreases steps - i,
        {
            proof {
                self@.lemma_walk_step(start, i as nat);
            }
            match self.headers.get(&cur) {
                Some(info) => {
                    cur = info.header.previous_header_hash;
                },
                None => {
                    proof {
                        self@.lemma_walk_stuck(start, i as nat, steps as nat);
                    }
                    break ;
                },
            }
            i += 1;
        }
        cur
    }

    /// Marks the block that lies the confirmation depth behind `header_info` as confirmed;
    /// no other header is changed. Gives its hash and height, or those of the block the chain
    /// started from where the block is not stored. For a stored header whose ancestors down
    /// to that depth are stored, the height given is the height of the header less the depth.
    /// The transactions of the block are not applied here: that is what
    /// `bridge::Module::handle_confirm_block` does with the hash given.
    pub fn update_confirmed_header(&mut self, header_info: &BlockHeaderInfo) -> (r: (H256, u32))
        requires
            old(self).wf(),
        ensures
            final(self).wf(),
            final(self)@ == old(self)@.confirming(header_info@),
            r == if old(self)@.headers.dom().contains(old(self)@.confirm_target(header_info@)) {
                (
                    old(self)@.confirm_target(header_info@),
                    old(self)@.headers[old(self)@.confirm_target(header_info@)].height,
                )
            } else {
                old(self)@.genesis
            },
            old(self)@.params.confirmations >= 1 && old(self)@.holds(header_info@) && old(
                self,
            )@.descends(header_info.header.hash, old(self)@.params.confirmations as nat) ==> r == (
                old(self)@.walk_back(
                    header_info.header.hash,
                    old(self)@.params.confirmations as nat,
                ),
                (header_info.height - old(self)@.params.confirmations) as u32,
            ) && final(self)@.headers[r.0].confirmed,
    {
        proof {
            if self@.params.confirmations >= 1 && self@.holds(header_info@) && self@.descends(
                header_info.header.hash,
                self@.params.confirmations as nat,
            ) {
                self@.lemma_confirm_target(header_info@);
            }
        }
        let target = self.confirm_target(header_info);
        let height = match self.headers.get(&target) {
            Some(info) => info.height,
            None => {
                return self.genesis;
            },
        };
        let _ = self.confirm(header_info);
        (target, height)
    }

    /// Records that the transaction `txid` is in the block `block_hash`. Says whether the
    /// block is stored; a transaction that is recorded already is not recorded again.
    pub fn attach_tx(&mut self, block_hash: &H256, txid: H256) -> (stored: bool)
        requires
            old(self).wf(),
        ensures
            final(self).wf(),
            stored == old(self)@.headers.dom().contains(*block_hash),
            final(self)@ == old(self)@.with_tx(*block_hash, txid),
    {
        let updated = match self.headers.get(block_hash) {
            Some(info) => {
                if crate::bitcoin::contains_hash(&info.txid_list, &txid) {
                    return true;
                }
                let mut copy = info.duplicate();
                copy.txid_list.push(txid);
                copy
            },
            None => {
                return false;
            },
        };
        let ghost before = *self;
        self.headers.insert(block_hash, updated);
        proof {
            let after = before@.with_tx(*block_hash, txid);
            assert(self@.headers =~= after.headers);
            before@.lemma_heights_kept(after);
            assert forall|h: H256| after.headers.dom().contains(h) implies (
            #[trigger] after.headers[h]).header.hash == h by {
                assert(before@.headers[h].header.hash == h);
            }
            assert forall|h: H256| after.headers.dom().contains(h) implies after.hashes_at.dom().contains(
                (#[trigger] after.headers[h]).height,
            ) && after.hashes_at[after.headers[h].height].contains(h) by {
                assert(before@.headers[h].height == after.headers[h].height);
            }
            assert forall|n: u32, j: int|
                after.hashes_at.dom().contains(n) && 0 <= j < after.hashes_at[n].len()
                    implies after.headers.dom().contains(#[trigger] after.hashes_at[n][j])
                && after.headers[after.hashes_at[n][j]].height == n by {
                assert(before@.headers.dom().contains(before@.hashes_at[n][j]));
            }
            assert forall|i: int| 0 <= i < after.main.len() implies after.headers.dom().contains(
                #[trigger] after.main[i],
            ) && after.headers[after.main[i]].height == after.base + i by {
                assert(before@.headers.dom().contains(before@.main[i]));
            }
            assert forall|i: int| 1 <= i < after.main.len() implies after.parent(
                #[trigger] after.main[i],
            ) == after.main[i - 1] by {
                assert(before@.parent(before@.main[i]) == before@.main[i - 1]);
            }
        }
        true
    }
}

impl ChainState {
    /// The state with `txid` recorded in the block `block_hash`, unless the block is not
    /// stored or holds the transaction already.
    pub open spec fn with_tx(self, block_hash: H256, txid: H256) -> ChainState {
        if self.headers.dom().contains(block_hash) && !self.headers[block_hash].txid_list.contains(
            txid,
        ) {
            ChainState {
                headers: self.headers.insert(
                    block_hash,
                    HeaderInfoView {
                        txid_list: self.headers[block_hash].txid_list.push(txid),
                        ..self.headers[block_hash]
                    },
                ),
                ..self
            }
        } else {
            self
        }
    }

    /// Making a block the best block only adds it to the best chain: what was stored stays
    /// stored.
    pub proof fn lemma_canonized_main(self, hash: H256)
        ensures
            self.canonized(hash).main == self.main.push(hash),
            self.canonized(hash).base == self.base,
            self.canonized(hash).hashes_at == self.hashes_at,
            self.canonized(hash).headers.dom() == self.headers.dom(),
    {
        let ext = self.extended(hash);
        match ext.newly_confirmed(self.headers[hash]) {
            Some(t) => {
                assert(ext.with_confirmed(t).headers.dom() =~= ext.headers.dom());
            },
            None => {},
        }
    }

    /// Making blocks best blocks only adds them to the best chain: what was stored stays
    /// stored.
    pub proof fn lemma_canonized_all_main(self, route: Seq<H256>)
        ensures
            self.canonized_all(route).main == self.main + route,
            self.canonized_all(route).base == self.base,
            self.canonized_all(route).hashes_at == self.hashes_at,
            self.canonized_all(route).headers.dom() == self.headers.dom(),
        decreases route.len(),
    {
        if route.len() == 0 {
            assert(self.main + route =~= self.main);
        } else {
            self.lemma_canonized_all_main(route.drop_last());
            let before = self.canonized_all(route.drop_last());
            assert(before.main.push(route.last()) =~= self.main + route);
            before.lemma_canonized_main(route.last());
        }
    }

    /// Making blocks best blocks changes nothing of the headers but their confirmation marks.
    pub proof fn lemma_canonized_all_headers(self, route: Seq<H256>)
        ensures
            self.canonized_all(route).main == self.main + route,
            self.canonized_all(route).base == self.base,
            self.canonized_all(route).headers.dom() == self.headers.dom(),
            forall|h: H256|
                self.headers.dom().contains(h) ==> (#[trigger] self.canonized_all(route).headers[h]).header
                    == self.headers[h].header && self.canonized_all(route).headers[h].height
                    == self.headers[h].height && self.canonized_all(route).headers[h].txid_list
                    == self.headers[h].txid_list,
        decreases route.len(),
    {
        self.lemma_canonized_all_main(route);
        if route.len() > 0 {
            self.lemma_canonized_all_headers(route.drop_last());
            let before = self.canonized_all(route.drop_last());
            before.lemma_canonized_main(route.last());
        }
    }

    /// Header idempotence: handing in a header a second time changes nothing, and the header
    /// is then recognised as known.
    pub proof fn lemma_insert_idempotent(self, header: BlockHeader)
        ensures
            self.inserted(header).inserted(header) == self.inserted(header),
            self.origin(header) is Ok ==> self.inserted(header).origin(header) == Ok::<
                BlockOriginView,
                ChainErr,
            >(BlockOriginView::KnownBlock),
    {
        match self.origin(header) {
            Ok(BlockOriginView::CanonChain { block_number }) => {
                let s = self.stored(header, block_number);
                s.lemma_canonized_main(header.hash);
            },
            Ok(BlockOriginView::SideChain(o)) => {},
            Ok(BlockOriginView::SideChainBecomingCanonChain(o)) => {
                let s = self.forked(o.decanonized_route, o.canonized_route).stored(
                    header,
                    o.block_number,
                );
                s.lemma_canonized_main(header.hash);
            },
            _ => {},
        }
    }

    /// Taking the best block off the best chain undoes what made it the best block: the best
    /// chain and its tip are what they were.
    pub proof fn lemma_decanonize_inverts_canonize(self, hash: H256)
        requires
            self.main.len() >= 1,
        ensures
            self.canonized(hash).can_decanonize(),
            self.canonized(hash).decanonized().main == self.main,
            self.canonized(hash).decanonized().base == self.base,
            self.canonized(hash).decanonized().best() == self.best(),
    {
        self.lemma_canonized_main(hash);
        assert(self.main.push(hash).drop_last() =~= self.main);
    }

    /// Reorganisation round trip: when the best chain switches from its last blocks `a` to a
    /// branch `b` and then back from `b` to `a`, the best chain and its tip are what they
    /// were, and the same headers are stored with nothing changed but confirmation marks.
    pub proof fn lemma_reorg_round_trip(self, a: Seq<H256>, b: Seq<H256>)
        requires
            self.ends_with(a),
        ensures
            self.forked(a, b).forked(b, a).main == self.main,
            self.forked(a, b).forked(b, a).base == self.base,
            self.forked(a, b).forked(b, a).best() == self.best(),
            self.forked(a, b).forked(b, a).hashes_at == self.hashes_at,
            self.forked(a, b).forked(b, a).headers.dom() == self.headers.dom(),
            forall|h: H256|
                self.headers.dom().contains(h) ==> (#[trigger] self.forked(a, b).forked(
                    b,
                    a,
                ).headers[h]).header == self.headers[h].header && self.forked(a, b).forked(
                    b,
                    a,
                ).headers[h].height == self.headers[h].height && self.forked(a, b).forked(
                    b,
                    a,
                ).headers[h].txid_list == self.headers[h].txid_list,
    {
        let len = self.main.len() as int;
        let kept = self.main.take(len - a.len());
        self.lemma_decanonized_by(a.len());
        let mid = self.decanonized_by(a.len());
        mid.lemma_canonized_all_main(b);
        let there = self.forked(a, b);
        assert(there.main == kept + b);
        there.lemma_decanonized_by(b.len());
        let mid2 = there.decanonized_by(b.len());
        assert(mid2.main =~= kept);
        mid2.lemma_canonized_all_main(a);
        assert(kept + a =~= self.main);
        mid.lemma_canonized_all_headers(b);
        mid2.lemma_canonized_all_headers(a);
    }
}

impl ChainState {
    /// The height whose headers are dropped once the header `info` is stored, if any is: the
    /// height that lies `reserved_block` below it, provided it lies further behind the best
    /// block than the confirmation depth.
    pub open spec fn prune_height(self, info: HeaderInfoView) -> Option<u32> {
        if info.height > self.params.reserved_block && (info.height - self.params.reserved_block)
            + self.params.confirmations < self.best().number {
            Some((info.height - self.params.reserved_block) as u32)
        } else {
            None
        }
    }

    /// How many blocks the best chain loses at its old end when the height `del` is dropped.
    pub open spec fn pruned_prefix(self, del: u32) -> int {
        if del >= self.base {
            del - self.base + 1
        } else {
            0
        }
    }

    /// The state after every header of height `del` was dropped. The best chain then starts
    /// above that height.
    pub open spec fn pruned(self, del: u32) -> ChainState {
        ChainState {
            headers: self.headers.remove_keys(self.listed_at(del).to_set()),
            hashes_at: self.hashes_at.remove(del),
            main: self.main.subrange(self.pruned_prefix(del), self.main.len() as int),
            base: (self.base + self.pruned_prefix(del)) as u32,
            ..self
        }
    }

    /// Transactions recorded in the blocks `hashes`, block by block.
    pub open spec fn txs_in(self, hashes: Seq<H256>) -> Seq<H256>
        decreases hashes.len(),
    {
        if hashes.len() == 0 {
            Seq::empty()
        } else {
            self.txs_in(hashes.drop_last()) + if self.headers.dom().contains(hashes.last()) {
                self.headers[hashes.last()].txid_list
            } else {
                Seq::empty()
            }
        }
    }

    /// Dropping a height that lies below the best block keeps a chain consistent, and no
    /// header of that height is left.
    pub proof fn lemma_pruned(self, del: u32)
        requires
            self.consistent(),
            del < self.best().number,
        ensures
            self.pruned(del).consistent(),
            self.pruned(del).best() == self.best(),
            forall|h: H256|
                self.pruned(del).headers.dom().contains(h) ==> (
                #[trigger] self.pruned(del).headers[h]).height != del,
    {
        let after = self.pruned(del);
        let k = self.pruned_prefix(del);
        let gone = self.listed_at(del).to_set();
        self.lemma_heights_kept(after);
        assert forall|h: H256| gone.contains(h) implies self.headers.dom().contains(h)
            && self.headers[h].height == del by {
            let j = choose|j: int| 0 <= j < self.listed_at(del).len() && self.listed_at(del)[j] == h;
            assert(self.headers.dom().contains(self.hashes_at[del][j]));
        }
        assert forall|h: H256| self.headers.dom().contains(h) && self.headers[h].height == del
            implies gone.contains(h) by {
            assert(self.hashes_at[self.headers[h].height].contains(h));
        }
        assert forall|i: int| 0 <= i < after.main.len() implies after.headers.dom().contains(
            #[trigger] after.main[i],
        ) && after.headers[after.main[i]].height == after.base + i by {
            assert(after.main[i] == self.main[i + k]);
            assert(self.headers.dom().contains(self.main[i + k]));
        }
        assert forall|i: int| 1 <= i < after.main.len() implies after.parent(#[trigger] after.main[i])
            == after.main[i - 1] by {
            assert(after.main[i] == self.main[i + k]);
            assert(after.main[i - 1] == self.main[i + k - 1]);
            assert(self.headers.dom().contains(self.main[i + k]));
            assert(self.parent(self.main[i + k]) == self.main[i + k - 1]);
        }
        assert forall|h: H256| after.headers.dom().contains(h) implies (
        #[trigger] after.headers[h]).header.hash == h by {
            assert(self.headers[h].header.hash == h);
        }
        assert forall|h: H256| after.headers.dom().contains(h) implies after.hashes_at.dom().contains(
            (#[trigger] after.headers[h]).height,
        ) && after.hashes_at[after.headers[h].height].contains(h) by {
            assert(self.hashes_at[self.headers[h].height].contains(h));
        }
        assert forall|n: u32, j: int|
            after.hashes_at.dom().contains(n) && 0 <= j < after.hashes_at[n].len()
                implies after.headers.dom().contains(#[trigger] after.hashes_at[n][j])
            && after.headers[after.hashes_at[n][j]].height == n by {
            assert(self.headers.dom().contains(self.hashes_at[n][j]));
        }
        assert forall|n: u32| after.hashes_at.dom().contains(n) implies (
        #[trigger] after.hashes_at[n]).no_duplicates() by {
            assert(self.hashes_at[n].no_duplicates());
        }
        assert(after.main.last() == self.main.last());
    }
}

impl Chain {
    /// Drops the headers that lie too far below the header `header_info`: those of the height
    /// `reserved_block` below it, provided that height lies further behind the best block
    /// than the confirmation depth. Hands back the transactions that were recorded in the
    /// dropped blocks.
    pub fn remove_unused_headers(&mut self, header_info: &BlockHeaderInfo) -> (txs: Vec<H256>)
        requires
            old(self).wf(),
        ensures
            final(self).wf(),
            match old(self)@.prune_height(header_info@) {
                Some(del) => final(self)@ == old(self)@.pruned(del) && txs@ == old(self)@.txs_in(
                    old(self)@.listed_at(del),
                ),
                None => *final(self) == *old(self) && txs@ == Seq::<H256>::empty(),
            },
    {
        let mut txs: Vec<H256> = Vec::new();
        let reserved = self.params.reserved_block;
        let best = self.best_index();
        if header_info.height <= reserved {
            return txs;
        }
        let del = header_info.height - reserved;
        if (del as u64) + (self.params.confirmations as u64) >= best.number as u64 {
            return txs;
        }
        let ghost before = *self;
        let list = match self.hashes_at.remove(&del) {
            Some(list) => list,
            None => Vec::new(),
        };
        assert(list@ == before@.listed_at(del));
        let ghost listing = self.hashes_at;
        let mut i: usize = 0;
        assert(list@.take(0).to_set() =~= Set::<H256>::empty());
        assert(self.headers@ =~= before.headers@.remove_keys(list@.take(0).to_set()));
        while i < list.len()
            invariant
                i <= list.len(),
                before.wf(),
                self.headers.wf(),
                self.hashes_at == listing,
                self.main == before.main,
                self.base == before.base,
                self.params == before.params,
                self.genesis == before.genesis,
                list@ == before@.listed_at(del),
                self.headers@ == before.headers@.remove_keys(list@.take(i as int).to_set()),
                txs@ == before@.txs_in(list@.take(i as int)),
            decreases list.len() - i,
        {
            let hash = list[i];
            proof {
                assert(list@.take(i + 1).drop_last() =~= list@.take(i as int));
                assert(list@.take(i + 1).last() == hash);
                lemma_take_to_set(list@, i as int);
                assert(before@.hashes_at[del][i as int] == hash);
                assert(before@.headers.dom().contains(hash));
                let done = list@.take(i as int);
                if done.contains(hash) {
                    let j = choose|j: int| 0 <= j < done.len() && done[j] == hash;
                    assert(before@.hashes_at[del].no_duplicates());
                    assert(list@[j] == list@[i as int]);
                }
            }
            match self.headers.remove(&hash) {
                Some(info) => {
                    let mut recorded = info.txid_list;
                    txs.append(&mut recorded);
                },
                None => {},
            }
            assert(self.headers@ =~= before.headers@.remove_keys(list@.take(i + 1).to_set()));
            i += 1;
        }
        assert(list@.take(list.len() as int) =~= list@);
        let len = self.main.len();
        assert(self.main@ == before@.main && self.base == before@.base);
        assert(best.number == self.base + len - 1);
        let k: usize = if del >= self.base {
            (del - self.base) as usize + 1
        } else {
            0
        };
        assert(k < len);
        let mut kept: Vec<H256> = Vec::new();
        let mut m: usize = k;
        assert(kept@ =~= self.main@.subrange(k as int, m as int));
        while m < len
            invariant
                k <= m <= len,
                len == self.main.len(),
                kept@ == self.main@.subrange(k as int, m as int),
            decreases len - m,
        {
            kept.push(self.main[m]);
            assert(kept@ =~= self.main@.subrange(k as int, m + 1));
            m += 1;
        }
        self.main = kept;
        self.base = self.base + k as u32;
        proof {
            let after = before@.pruned(del);
            assert(self@.headers =~= after.headers);
            assert(self@.hashes_at =~= after.hashes_at);
            before@.lemma_pruned(del);
        }
        txs
    }
}

/// The hashes of `route` in reverse order.
pub fn reversed(route: &Vec<H256>) -> (r: Vec<H256>)
    ensures
        r@ == route@.reverse(),
{
    let mut out: Vec<H256> = Vec::new();
    let mut k: usize = route.len();
    while k > 0
        invariant
            k <= route.len(),
            out@.len() == route.len() - k,
            forall|j: int| 0 <= j < out@.len() ==> out@[j] == route@[route.len() - 1 - j],
        decreases k,
    {
        k -= 1;
        out.push(route[k]);
    }
    assert(out@ =~= route@.reverse());
    out
}

} // verus!
