use chainx_core::bitcoin::OutPoint;
use chainx_core::primitives::H256;
use chainx_core::utxo::{UTXOStorage, UTXO};

fn h(n: u64) -> H256 {
    H256 { w0: n, w1: 0, w2: 0, w3: 0 }
}

fn utxo(txid: u64, index: u32, balance: u64, is_spent: bool) -> UTXO {
    UTXO { txid: h(txid), index, balance, is_spent }
}

fn storage() -> UTXOStorage {
    let mut s = UTXOStorage::new();
    s.add(vec![utxo(1, 0, 100, false), utxo(2, 0, 200, true), utxo(3, 1, 300, false)]);
    s.add(vec![utxo(4, 0, 50, false)]);
    s
}

#[test]
fn selection_takes_the_newest_unspent_outputs() {
    let s = storage();
    assert_eq!(s.max_index(), 4);
    assert_eq!(s.select_utxo(50), Some(vec![utxo(4, 0, 50, false)]));
    assert_eq!(s.select_utxo(51), Some(vec![utxo(4, 0, 50, false), utxo(3, 1, 300, false)]));
    assert_eq!(s.select_utxo(350), Some(vec![utxo(4, 0, 50, false), utxo(3, 1, 300, false)]));
    assert_eq!(
        s.select_utxo(450),
        Some(vec![utxo(4, 0, 50, false), utxo(3, 1, 300, false), utxo(1, 0, 100, false)])
    );
    assert_eq!(s.select_utxo(451), None);
    assert_eq!(s.select_utxo(u64::MAX), None);
    assert_eq!(s.select_utxo(0), Some(vec![utxo(4, 0, 50, false)]));
    assert_eq!(UTXOStorage::new().select_utxo(0), None);
}

#[test]
fn selection_does_not_overflow() {
    let mut s = UTXOStorage::new();
    s.add(vec![utxo(1, 0, u64::MAX, false), utxo(2, 0, u64::MAX, false)]);
    assert_eq!(s.select_utxo(u64::MAX), Some(vec![utxo(2, 0, u64::MAX, false)]));
    s.add(vec![utxo(3, 0, 1, false)]);
    assert_eq!(s.select_utxo(u64::MAX), Some(vec![utxo(3, 0, 1, false), utxo(2, 0, u64::MAX, false)]));
}

#[test]
fn marking_is_idempotent() {
    let mut s = storage();
    let points = vec![OutPoint { hash: h(3), index: 1 }, OutPoint { hash: h(9), index: 0 }];
    assert_eq!(s.update_from_outpoint(points.clone(), true), 300);
    assert_eq!(s.get(2), Some(utxo(3, 1, 300, true)));
    assert_eq!(s.update_from_outpoint(points.clone(), true), 300);
    assert_eq!(s.get(2), Some(utxo(3, 1, 300, true)));
    s.mark_unspent(points.clone());
    assert_eq!(s.get(2), Some(utxo(3, 1, 300, false)));
    s.mark_unspent(points.clone());
    assert_eq!(s.get(2), Some(utxo(3, 1, 300, false)));
    s.mark_spent(points);
    assert_eq!(s.get(2), Some(utxo(3, 1, 300, true)));
    assert_eq!(s.get(0), Some(utxo(1, 0, 100, false)));
    assert_eq!(s.get(4), None);
}

#[test]
fn find_gives_the_newest_output_of_that_name() {
    let mut s = storage();
    s.add(vec![utxo(1, 0, 999, false)]);
    assert_eq!(s.find_utxo(&OutPoint { hash: h(1), index: 0 }), Some(utxo(1, 0, 999, false)));
    assert_eq!(s.find_utxo(&OutPoint { hash: h(1), index: 1 }), None);
    assert_eq!(s.update_from_outpoint(vec![OutPoint { hash: h(1), index: 0 }], true), 999);
    assert_eq!(s.get(0), Some(utxo(1, 0, 100, false)));
    assert_eq!(s.get(4), Some(utxo(1, 0, 999, true)));
}

#[test]
fn update_marks_outputs_that_are_equal() {
    let mut s = storage();
    // only an output that is equal in every part is marked
    assert_eq!(s.update(vec![utxo(1, 0, 100, false), utxo(3, 1, 300, true), utxo(4, 0, 51, false)], true), 100);
    assert_eq!(s.get(0), Some(utxo(1, 0, 100, true)));
    assert_eq!(s.get(2), Some(utxo(3, 1, 300, false)));
    assert_eq!(s.get(3), Some(utxo(4, 0, 50, false)));
}
