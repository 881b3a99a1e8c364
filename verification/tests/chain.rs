use chainx_core::bitcoin::BlockHeader;
use chainx_core::blockchain::{BestHeader, BlockOrigin, Chain, ChainErr, Params};
use chainx_core::header::{check_prev_and_convert, remove_unused_headers, update_confirmed_header};
use chainx_core::primitives::H256;

fn h(n: u64) -> H256 {
    H256 { w0: n, w1: 0, w2: 0, w3: 0 }
}

fn header(hash: u64, prev: u64) -> BlockHeader {
    BlockHeader {
        hash: h(hash),
        version: 1,
        previous_header_hash: h(prev),
        merkle_root_hash: h(1000 + hash),
        time: 0,
        bits: 0,
        nonce: 0,
    }
}

fn params(confirmations: u32) -> Params {
    Params { max_fork_route_preset: 10, confirmations, reserved_block: 100 }
}

fn chain(confirmations: u32) -> Chain {
    Chain::new(header(1, 0), 100, params(confirmations))
}

#[test]
fn header_on_the_best_tip_becomes_the_best_and_a_rival_stays_aside() {
    let mut c = chain(6);
    assert_eq!(c.best_index(), BestHeader { number: 100, hash: h(1) });
    let first = c.insert_best_header(header(2, 1)).unwrap();
    assert!(matches!(first.origin, BlockOrigin::CanonChain { block_number: 101 }));
    assert_eq!(c.best_index(), BestHeader { number: 101, hash: h(2) });
    assert_eq!(c.block_header_for(&h(2)).unwrap().height, 101);

    let rival = c.insert_best_header(header(3, 1)).unwrap();
    match rival.origin {
        BlockOrigin::SideChain(o) => {
            assert_eq!(o.ancestor, 100);
            assert_eq!(o.block_number, 101);
            assert_eq!(o.canonized_route, Vec::<H256>::new());
            assert_eq!(o.decanonized_route, vec![h(2)]);
        }
        other => panic!("not a side chain: {:?}", other),
    }
    assert_eq!(c.best_index(), BestHeader { number: 101, hash: h(2) });
    assert_eq!(c.block_header_for(&h(3)).unwrap().height, 101);
    assert_eq!(c.number_for_hash(&h(3)), None);
    assert_eq!(c.number_for_hash(&h(2)), Some(101));
    assert_eq!(c.block_hash_for(101), vec![h(2), h(3)]);
}

#[test]
fn known_header_changes_nothing() {
    let mut c = chain(6);
    c.insert_best_header(header(2, 1)).unwrap();
    c.insert_best_header(header(3, 2)).unwrap();
    let best = c.best_index();
    let again = c.insert_best_header(header(2, 1)).unwrap();
    assert!(matches!(again.origin, BlockOrigin::KnownBlock));
    assert!(again.confirmed.is_empty());
    assert_eq!(c.best_index(), best);
    assert_eq!(c.block_hash_for(101), vec![h(2)]);
    let again = c.insert_best_header(header(3, 2)).unwrap();
    assert!(matches!(again.origin, BlockOrigin::KnownBlock));
    assert_eq!(c.best_index(), best);
}

#[test]
fn unknown_parent_is_refused() {
    let mut c = chain(6);
    assert_eq!(c.insert_best_header(header(5, 4)).unwrap_err(), ChainErr::UnknownParent);
    assert_eq!(c.best_index(), BestHeader { number: 100, hash: h(1) });
    assert!(c.block_header_for(&h(5)).is_none());
    assert_eq!(ChainErr::UnknownParent.info(), "Block parent is unknown");
    assert_eq!(ChainErr::AncientFork.info(), "Fork is too long to proceed");
    assert_eq!(ChainErr::NotFound.info(), "Not to find orphaned side chain in header collection; qed");
    assert_eq!(ChainErr::ForkErr.info(), "the hash should same");
    assert_eq!(ChainErr::CannotCanonize.info(), "Cannot canonize block");
    assert_eq!(ChainErr::OtherErr("x").info(), "x");
}

#[test]
fn longer_branch_becomes_the_best_chain_and_back() {
    let mut c = chain(6);
    // best chain 1 - 2 - 3
    c.insert_best_header(header(2, 1)).unwrap();
    c.insert_best_header(header(3, 2)).unwrap();
    // branch 1 - 12 - 13 - 14
    assert!(matches!(c.insert_best_header(header(12, 1)).unwrap().origin, BlockOrigin::SideChain(_)));
    assert!(matches!(c.insert_best_header(header(13, 12)).unwrap().origin, BlockOrigin::SideChain(_)));
    assert_eq!(c.best_index(), BestHeader { number: 102, hash: h(3) });
    let switched = c.insert_best_header(header(14, 13)).unwrap();
    match switched.origin {
        BlockOrigin::SideChainBecomingCanonChain(o) => {
            assert_eq!(o.ancestor, 100);
            assert_eq!(o.block_number, 103);
            assert_eq!(o.canonized_route, vec![h(12), h(13)]);
            assert_eq!(o.decanonized_route, vec![h(2), h(3)]);
        }
        other => panic!("no switch: {:?}", other),
    }
    assert_eq!(c.best_index(), BestHeader { number: 103, hash: h(14) });
    assert_eq!(c.number_for_hash(&h(2)), None);
    assert_eq!(c.number_for_hash(&h(3)), None);
    assert_eq!(c.number_for_hash(&h(12)), Some(101));
    assert_eq!(c.number_for_hash(&h(13)), Some(102));
    // back to the first chain, which grows to 1 - 2 - 3 - 4 - 5
    assert!(matches!(c.insert_best_header(header(4, 3)).unwrap().origin, BlockOrigin::SideChain(_)));
    let back = c.insert_best_header(header(5, 4)).unwrap();
    match back.origin {
        BlockOrigin::SideChainBecomingCanonChain(o) => {
            assert_eq!(o.canonized_route, vec![h(2), h(3), h(4)]);
            assert_eq!(o.decanonized_route, vec![h(12), h(13), h(14)]);
        }
        other => panic!("no switch back: {:?}", other),
    }
    assert_eq!(c.best_index(), BestHeader { number: 104, hash: h(5) });
    assert_eq!(c.number_for_hash(&h(2)), Some(101));
    assert_eq!(c.number_for_hash(&h(3)), Some(102));
    assert_eq!(c.number_for_hash(&h(12)), None);
}

#[test]
fn fork_there_and_back_restores_the_best_chain() {
    let mut c = chain(6);
    c.insert_best_header(header(2, 1)).unwrap();
    c.insert_best_header(header(3, 2)).unwrap();
    c.insert_best_header(header(12, 1)).unwrap();
    c.insert_best_header(header(13, 12)).unwrap();
    let there = chainx_core::blockchain::SideChainOrigin {
        ancestor: 100,
        canonized_route: vec![h(12), h(13)],
        decanonized_route: vec![h(2), h(3)],
        block_number: 103,
    };
    let back = chainx_core::blockchain::SideChainOrigin {
        ancestor: 100,
        canonized_route: vec![h(2), h(3)],
        decanonized_route: vec![h(12), h(13)],
        block_number: 103,
    };
    assert_eq!(c.fork(&there), Ok(vec![]));
    assert_eq!(c.best_index(), BestHeader { number: 102, hash: h(13) });
    assert_eq!(c.fork(&back), Ok(vec![]));
    assert_eq!(c.best_index(), BestHeader { number: 102, hash: h(3) });
    assert_eq!(c.number_for_hash(&h(2)), Some(101));
    assert_eq!(c.number_for_hash(&h(12)), None);
    // a switch that does not start from the best chain is refused and changes nothing
    assert_eq!(c.fork(&back), Err(ChainErr::ForkErr));
    assert_eq!(c.best_index(), BestHeader { number: 102, hash: h(3) });
}

#[test]
fn block_is_confirmed_once_it_lies_deep_enough() {
    let mut c = chain(2);
    assert!(c.insert_best_header(header(2, 1)).unwrap().confirmed.is_empty());
    assert!(!c.block_header_for(&h(2)).unwrap().confirmed);
    // 3 confirms the block two behind it, which is the confirmed start of the chain
    assert!(c.insert_best_header(header(3, 2)).unwrap().confirmed.is_empty());
    assert_eq!(c.insert_best_header(header(4, 3)).unwrap().confirmed, vec![h(2)]);
    assert!(c.block_header_for(&h(2)).unwrap().confirmed);
    assert!(!c.block_header_for(&h(3)).unwrap().confirmed);
    assert_eq!(c.insert_best_header(header(5, 4)).unwrap().confirmed, vec![h(3)]);
}

#[test]
fn branch_that_would_unwind_a_confirmed_block_is_refused() {
    let mut c = chain(1);
    c.insert_best_header(header(2, 1)).unwrap();
    c.insert_best_header(header(3, 2)).unwrap(); // confirms 2
    assert!(c.block_header_for(&h(2)).unwrap().confirmed);
    c.insert_best_header(header(12, 1)).unwrap();
    c.insert_best_header(header(13, 12)).unwrap();
    assert_eq!(c.insert_best_header(header(14, 13)).unwrap_err(), ChainErr::AncientFork);
    assert_eq!(c.best_index(), BestHeader { number: 102, hash: h(3) });
    assert!(c.block_header_for(&h(14)).is_none());
}

#[test]
fn header_far_behind_the_best_block_is_refused() {
    let mut c = chain(1);
    for n in 2..=6 {
        c.insert_best_header(header(n, n - 1)).unwrap();
    }
    // height 102 + 1 confirmation < 105
    assert_eq!(c.insert_best_header(header(20, 2)).unwrap_err(), ChainErr::AncientFork);
    assert_eq!(check_prev_and_convert(&c, header(20, 2)).unwrap_err(), ChainErr::AncientFork);
    assert_eq!(check_prev_and_convert(&c, header(20, 99)).unwrap_err(), ChainErr::UnknownParent);
    let info = check_prev_and_convert(&c, header(20, 5)).unwrap();
    assert_eq!(info.height, 105);
    assert!(!info.confirmed);
    assert!(info.txid_list.is_empty());
}

#[test]
fn branch_longer_than_the_search_bound_is_refused() {
    let mut c = Chain::new(header(1, 0), 0, Params { max_fork_route_preset: 2, confirmations: 50, reserved_block: 100 });
    c.insert_best_header(header(2, 1)).unwrap();
    c.insert_best_header(header(3, 2)).unwrap();
    c.insert_best_header(header(4, 3)).unwrap();
    c.insert_best_header(header(12, 1)).unwrap();
    c.insert_best_header(header(13, 12)).unwrap();
    // the walk has to pass 13 and 12 and then look at 1: three blocks
    assert_eq!(c.insert_best_header(header(14, 13)).unwrap_err(), ChainErr::AncientFork);
}

#[test]
fn best_block_can_be_rolled_back_but_not_the_last_one() {
    let mut c = chain(6);
    c.insert_best_header(header(2, 1)).unwrap();
    assert_eq!(c.rollback_best(), Ok(h(2)));
    assert_eq!(c.best_index(), BestHeader { number: 100, hash: h(1) });
    assert_eq!(c.rollback_best(), Err(ChainErr::NotFound));
    assert_eq!(c.canonize(&h(2)), Ok(None));
    assert_eq!(c.best_index(), BestHeader { number: 101, hash: h(2) });
    assert_eq!(c.canonize(&h(2)), Err(ChainErr::CannotCanonize));
    assert_eq!(c.canonize(&h(9)), Err(ChainErr::NotFound));
}

#[test]
fn update_confirmed_header_gives_the_confirmed_block_or_the_start() {
    let mut c = chain(2);
    c.insert_best_header(header(2, 1)).unwrap();
    c.insert_best_header(header(3, 2)).unwrap();
    let tip = c.block_header_for(&h(3)).unwrap().duplicate();
    assert_eq!(update_confirmed_header(&mut c, &tip), (h(1), 100));
    let low = c.block_header_for(&h(1)).unwrap().duplicate();
    assert_eq!(update_confirmed_header(&mut c, &low), (h(1), 100));
    assert_eq!(c.genesis_info(), (h(1), 100));
}

#[test]
fn old_headers_are_dropped() {
    let mut c = Chain::new(header(1, 0), 0, Params { max_fork_route_preset: 10, confirmations: 1, reserved_block: 3 });
    c.insert_best_header(header(2, 1)).unwrap();
    c.insert_best_header(header(12, 1)).unwrap();
    for n in 3..=4 {
        c.insert_best_header(header(n, n - 1)).unwrap();
    }
    assert!(c.attach_tx(&h(2), h(777)));
    assert!(c.attach_tx(&h(12), h(778)));
    assert!(c.attach_tx(&h(12), h(778)));
    assert!(!c.attach_tx(&h(99), h(778)));
    c.insert_best_header(header(5, 4)).unwrap();
    c.insert_best_header(header(6, 5)).unwrap();
    // the header 5 stands at height 4: the height 1 is dropped, it lies more than one behind the best
    let five = c.block_header_for(&h(5)).unwrap().duplicate();
    let txs = remove_unused_headers(&mut c, &five);
    assert_eq!(txs, vec![h(777), h(778)]);
    assert!(c.block_header_for(&h(2)).is_none());
    assert!(c.block_header_for(&h(12)).is_none());
    assert!(c.block_header_for(&h(1)).is_some());
    assert!(c.block_header_for(&h(3)).is_some());
    assert_eq!(c.block_hash_for(1), Vec::<H256>::new());
    assert_eq!(c.best_index(), BestHeader { number: 5, hash: h(6) });
    assert_eq!(c.number_for_hash(&h(1)), None);
    assert_eq!(c.number_for_hash(&h(3)), Some(2));
    // nothing to drop for a low header
    let three = c.block_header_for(&h(3)).unwrap().duplicate();
    assert!(remove_unused_headers(&mut c, &three).is_empty());
    assert!(c.block_header_for(&h(1)).is_some());
}

#[test]
fn header_above_the_highest_height_is_refused() {
    let mut c = Chain::new(header(1, 0), u32::MAX, params(6));
    assert_eq!(c.insert_best_header(header(2, 1)).unwrap_err(), ChainErr::OtherErr("block height overflow"));
    assert_eq!(check_prev_and_convert(&c, header(2, 1)).unwrap_err(), ChainErr::OtherErr("block height overflow"));
    assert_eq!(c.best_index(), BestHeader { number: u32::MAX, hash: h(1) });
    assert_eq!(c.params(), params(6));
}

#[test]
fn header_that_comes_after_its_child_is_refused() {
    // the chain starts from a block whose parent is the block 7
    let mut c = Chain::new(header(1, 7), 100, params(6));
    c.insert_best_header(header(2, 1)).unwrap();
    // a header that claims to be the block 7, placed on top of the chain
    assert_eq!(
        c.insert_best_header(header(7, 2)).unwrap_err(),
        ChainErr::OtherErr("block is the parent of a stored block")
    );
    assert_eq!(
        check_prev_and_convert(&c, header(7, 2)).unwrap_err(),
        ChainErr::OtherErr("block is the parent of a stored block")
    );
    assert!(c.names_as_parent(&h(7)));
    assert!(c.names_as_parent(&h(1)));
    assert!(!c.names_as_parent(&h(2)));
    assert!(c.block_header_for(&h(7)).is_none());
    assert_eq!(c.best_index(), BestHeader { number: 101, hash: h(2) });
}

#[test]
fn confirmed_block_lies_the_depth_below_the_tip() {
    let mut c = chain(3);
    for n in 2..=6 {
        c.insert_best_header(header(n, n - 1)).unwrap();
    }
    // the tip 6 stands at 105: three parents back is the block 3 at 102
    let tip = c.block_header_for(&h(6)).unwrap().duplicate();
    assert_eq!(tip.height, 105);
    assert_eq!(update_confirmed_header(&mut c, &tip), (h(3), 102));
    assert!(c.block_header_for(&h(3)).unwrap().confirmed);
    let four = c.block_header_for(&h(4)).unwrap().duplicate();
    assert_eq!(update_confirmed_header(&mut c, &four), (h(1), 100));
    // a header on a branch lies above the shared block by the blocks of its branch and one more
    c.insert_best_header(header(14, 3)).unwrap();
    c.insert_best_header(header(15, 14)).unwrap();
    match c.block_origin(&header(16, 15)).unwrap() {
        BlockOrigin::SideChain(o) => {
            assert_eq!(o.ancestor, 102);
            assert_eq!(o.canonized_route, vec![h(14), h(15)]);
            assert_eq!(o.block_number, 102 + 2 + 1);
            assert_eq!(o.decanonized_route, vec![h(4), h(5), h(6)]);
        }
        other => panic!("not on a branch: {:?}", other),
    }
}
