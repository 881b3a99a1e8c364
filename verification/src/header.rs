//! What is done with a header when it is handed in: it is placed after its
//! parent, the block it confirms is marked, and headers that lie too far
//! back are dropped.

use vstd::prelude::*;
use crate::bitcoin::BlockHeader;
use crate::blockchain::{BlockHeaderInfo, Chain, ChainErr, ChainState, HeaderInfoView};
use crate::primitives::H256;

verus! {

impl ChainState {
    /// What is stored of `header` if it is accepted, or why it is refused: its parent must be
    /// stored, it must not lie further behind the best block than the confirmation depth,
    /// and no stored header may name it as its parent.
    pub open spec fn converted(self, header: BlockHeader) -> Result<HeaderInfoView, ChainErr> {
        let prev = header.previous_header_hash;
        if !self.headers.dom().contains(prev) {
            Err(ChainErr::UnknownParent)
        } else if self.headers[prev].height == u32::MAX {
            Err(ChainErr::OtherErr("block height overflow"))
        } else if self.headers[prev].height + 1 + self.params.confirmations < self.best().number {
            Err(ChainErr::AncientFork)
        } else if self.names_as_parent(header.hash) {
            Err(ChainErr::OtherErr("block is the parent of a stored block"))
        } else {
            Ok(
                HeaderInfoView {
                    header,
                    height: (self.headers[prev].height + 1) as u32,
                    confirmed: false,
                    txid_list: Seq::empty(),
                },
            )
        }
    }
}

/// Places `header` after its parent: gives what is to be stored of it, one block higher than
/// its parent, not confirmed and with no transactions.
pub fn check_prev_and_convert(chain: &Chain, header: BlockHeader) -> (r: Result<
    BlockHeaderInfo,
    ChainErr,
>)
    requires
        chain.wf(),
    ensures
        match r {
            Ok(info) => chain@.converted(header) == Ok::<HeaderInfoView, ChainErr>(info@),
            Err(e) => chain@.converted(header) == Err::<HeaderInfoView, ChainErr>(e),
        },
{
    let prev_height = match chain.block_header_for(&header.previous_header_hash) {
        Some(info) => info.height,
        None => {
            return Err(ChainErr::UnknownParent);
        },
    };
    if prev_height == u32::MAX {
        return Err(ChainErr::OtherErr("block height overflow"));
    }
    let best_height = chain.best_index().number;
    let confirmations = chain.params().confirmations;
    let this_height = prev_height + 1;
    if (this_height as u64) + (confirmations as u64) < best_height as u64 {
        return Err(ChainErr::AncientFork);
    }
    if chain.names_as_parent(&header.hash) {
        return Err(ChainErr::OtherErr("block is the parent of a stored block"));
    }
    Ok(BlockHeaderInfo { header, height: this_height, confirmed: false, txid_list: Vec::new() })
}

/// Drops the headers that lie too far below `header_info`, and hands back the transactions
/// that were recorded in them.
pub fn remove_unused_headers(chain: &mut Chain, header_info: &BlockHeaderInfo) -> (txs: Vec<H256>)
    requires
        old(chain).wf(),
    ensures
        final(chain).wf(),
        match old(chain)@.prune_height(header_info@) {
            Some(del) => final(chain)@ == old(chain)@.pruned(del) && txs@ == old(chain)@.txs_in(
                old(chain)@.listed_at(del),
            ),
            None => *final(chain) == *old(chain) && txs@ == Seq::<H256>::empty(),
        },
{
    chain.remove_unused_headers(header_info)
}

/// Marks the block that lies the confirmation depth behind `header_info` as confirmed, and
/// gives its hash and height, or those of the block the chain started from where that block
/// is not stored. For a stored header whose ancestors down to that depth are stored, the
/// height given is the height of the header less the depth. The transactions of the block are
/// not applied here: that is what `bridge::Module::handle_confirm_block` does with the hash
/// given.
pub fn update_confirmed_header(chain: &mut Chain, header_info: &BlockHeaderInfo) -> (r: (H256, u32))
    requires
        old(chain).wf(),
    ensures
        final(chain).wf(),
        final(chain)@ == old(chain)@.confirming(header_info@),
        r == if old(chain)@.headers.dom().contains(old(chain)@.confirm_target(header_info@)) {
            (
                old(chain)@.confirm_target(header_info@),
                old(chain)@.headers[old(chain)@.confirm_target(header_info@)].height,
            )
        } else {
            old(chain)@.genesis
        },
        old(chain)@.params.confirmations >= 1 && old(chain)@.holds(header_info@) && old(
            chain,
        )@.descends(header_info.header.hash, old(chain)@.params.confirmations as nat) ==> r == (
            old(chain)@.walk_back(
                header_info.header.hash,
                old(chain)@.params.confirmations as nat,
            ),
            (header_info.height - old(chain)@.params.confirmations) as u32,
        ) && final(chain)@.headers[r.0].confirmed,
{
    chain.update_confirmed_header(header_info)
}

} // verus!
