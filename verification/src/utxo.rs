//! The outputs that the trustees can spend: which there are, which are spent,
//! and which to spend for a given amount.

use vstd::prelude::*;
use crate::bitcoin::OutPoint;
use crate::primitives::H256;

verus! {

/// An output that pays the trustees.
#[derive(Clone, Copy, PartialEq, Eq, Structural, Debug)]
pub struct UTXO {
    pub txid: H256,
    pub index: u32,
    pub balance: u64,
    pub is_spent: bool,
}

impl UTXO {
    /// Whether this is the output that `out_point` names.
    pub open spec fn is_at(self, out_point: OutPoint) -> bool {
        out_point.hash == self.txid && out_point.index == self.index
    }
}

/// Sum of the balances of `utxos`.
pub open spec fn total_balance(utxos: Seq<UTXO>) -> int
    decreases utxos.len(),
{
    if utxos.len() == 0 {
        0
    } else {
        total_balance(utxos.drop_last()) + utxos.last().balance
    }
}

/// Goes through the first `n` outputs of `set` from the newest to the oldest, and adds the
/// unspent ones to `picked`, which sum up to `count`, until the sum reaches `target`.
pub open spec fn select_from(set: Seq<UTXO>, n: nat, count: int, picked: Seq<UTXO>, target: u64) -> Option<
    Seq<UTXO>,
>
    decreases n,
{
    if n == 0 || n > set.len() {
        None
    } else if set[n - 1].is_spent {
        select_from(set, (n - 1) as nat, count, picked, target)
    } else if count + set[n - 1].balance >= target {
        Some(picked.push(set[n - 1]))
    } else {
        select_from(
            set,
            (n - 1) as nat,
            count + set[n - 1].balance,
            picked.push(set[n - 1]),
            target,
        )
    }
}

/// The unspent outputs to spend for `target`: the newest ones, as many as it takes. There
/// are none to spend where the unspent outputs do not add up to `target`, or where there is
/// no unspent output at all.
pub open spec fn selection(set: Seq<UTXO>, target: u64) -> Option<Seq<UTXO>> {
    select_from(set, set.len(), 0, Seq::empty(), target)
}

/// Position of the newest of the first `n` outputs of `set` that `out_point` names.
pub open spec fn newest_at(set: Seq<UTXO>, n: nat, out_point: OutPoint) -> Option<int>
    decreases n,
{
    if n == 0 || n > set.len() {
        None
    } else if set[n - 1].is_at(out_point) {
        Some(n - 1)
    } else {
        newest_at(set, (n - 1) as nat, out_point)
    }
}

/// Position of the newest of the first `n` outputs of `set` that equals `utxo`.
pub open spec fn newest_equal(set: Seq<UTXO>, n: nat, utxo: UTXO) -> Option<int>
    decreases n,
{
    if n == 0 || n > set.len() {
        None
    } else if set[n - 1] == utxo {
        Some(n - 1)
    } else {
        newest_equal(set, (n - 1) as nat, utxo)
    }
}

/// `set` with the output at `position` marked as spent or not.
pub open spec fn with_mark(set: Seq<UTXO>, position: Option<int>, is_spent: bool) -> Seq<UTXO> {
    match position {
        Some(i) => set.update(i, UTXO { is_spent, ..set[i] }),
        None => set,
    }
}

/// Balance of the output at `position`.
pub open spec fn balance_at(set: Seq<UTXO>, position: Option<int>) -> int {
    match position {
        Some(i) => set[i].balance as int,
        None => 0,
    }
}

/// `set` after the newest output that each of `out_points` names was marked.
pub open spec fn marked(set: Seq<UTXO>, out_points: Seq<OutPoint>, is_spent: bool) -> Seq<UTXO>
    decreases out_points.len(),
{
    if out_points.len() == 0 {
        set
    } else {
        let before = marked(set, out_points.drop_last(), is_spent);
        with_mark(before, newest_at(before, before.len(), out_points.last()), is_spent)
    }
}

/// Sum of the balances of the outputs that were marked for `out_points`.
pub open spec fn marked_balance(set: Seq<UTXO>, out_points: Seq<OutPoint>, is_spent: bool) -> int
    decreases out_points.len(),
{
    if out_points.len() == 0 {
        0
    } else {
        let before = marked(set, out_points.drop_last(), is_spent);
        marked_balance(set, out_points.drop_last(), is_spent) + balance_at(
            before,
            newest_at(before, before.len(), out_points.last()),
        )
    }
}

/// `set` after the newest output that equals each of `utxos` was marked.
pub open spec fn updated(set: Seq<UTXO>, utxos: Seq<UTXO>, is_spent: bool) -> Seq<UTXO>
    decreases utxos.len(),
{
    if utxos.len() == 0 {
        set
    } else {
        let before = updated(set, utxos.drop_last(), is_spent);
        with_mark(before, newest_equal(before, before.len(), utxos.last()), is_spent)
    }
}

/// Sum of the balances of the outputs that were marked for `utxos`.
pub open spec fn updated_balance(set: Seq<UTXO>, utxos: Seq<UTXO>, is_spent: bool) -> int
    decreases utxos.len(),
{
    if utxos.len() == 0 {
        0
    } else {
        let before = updated(set, utxos.drop_last(), is_spent);
        updated_balance(set, utxos.drop_last(), is_spent) + balance_at(
            before,
            newest_equal(before, before.len(), utxos.last()),
        )
    }
}

/// What a selection is made of: each selected output is an unspent output of the set, and
/// together they cover the target.
pub proof fn lemma_select_from(set: Seq<UTXO>, n: nat, count: int, picked: Seq<UTXO>, target: u64)
    requires
        n <= set.len(),
        count == total_balance(picked),
        forall|i: int| 0 <= i < picked.len() ==> set.contains(#[trigger] picked[i]) && !picked[i].is_spent,
    ensures
        select_from(set, n, count, picked, target) matches Some(chosen) ==> total_balance(chosen)
            >= target && forall|i: int|
            0 <= i < chosen.len() ==> set.contains(#[trigger] chosen[i]) && !chosen[i].is_spent,
    decreases n,
{
    if n == 0 {
    } else if set[n - 1].is_spent {
        lemma_select_from(set, (n - 1) as nat, count, picked, target);
    } else {
        let more = picked.push(set[n - 1]);
        assert(more.drop_last() =~= picked);
        assert forall|i: int| 0 <= i < more.len() implies set.contains(#[trigger] more[i])
            && !more[i].is_spent by {
            if i < picked.len() {
                assert(more[i] == picked[i]);
            } else {
                assert(set[n - 1] == more[i]);
            }
        }
        if count + set[n - 1].balance >= target {
        } else {
            lemma_select_from(set, (n - 1) as nat, count + set[n - 1].balance, more, target);
        }
    }
}

/// Marking is idempotent: marking the output that `out_point` names a second time changes
/// nothing.
pub proof fn lemma_mark_idempotent(set: Seq<UTXO>, out_point: OutPoint, is_spent: bool)
    ensures
        marked(marked(set, seq![out_point], is_spent), seq![out_point], is_spent) == marked(
            set,
            seq![out_point],
            is_spent,
        ),
{
    let one = seq![out_point];
    assert(one.drop_last() =~= Seq::<OutPoint>::empty());
    let once = marked(set, one, is_spent);
    let position = newest_at(set, set.len(), out_point);
    assert(marked(set, Seq::<OutPoint>::empty(), is_spent) == set);
    assert(one.last() == out_point);
    assert(once == with_mark(set, position, is_spent));
    lemma_newest_at_found(set, set.len(), out_point);
    lemma_newest_at_kept(set, set.len(), out_point, position, is_spent);
    assert(marked(once, Seq::<OutPoint>::empty(), is_spent) == once);
    assert(marked(once, one, is_spent) == with_mark(
        once,
        newest_at(once, once.len(), out_point),
        is_spent,
    ));
    assert(marked(once, one, is_spent) =~= once);
}

/// Where the newest output that `out_point` names is found.
pub proof fn lemma_newest_at_found(set: Seq<UTXO>, n: nat, out_point: OutPoint)
    requires
        n <= set.len(),
    ensures
        newest_at(set, n, out_point) matches Some(i) ==> 0 <= i < n && set[i].is_at(out_point),
    decreases n,
{
    if n > 0 && !set[n - 1].is_at(out_point) {
        lemma_newest_at_found(set, (n - 1) as nat, out_point);
    }
}

/// Marking an output does not change which outputs `out_point` names.
pub proof fn lemma_newest_at_kept(
    set: Seq<UTXO>,
    n: nat,
    out_point: OutPoint,
    position: Option<int>,
    is_spent: bool,
)
    requires
        n <= set.len(),
        position matches Some(i) ==> 0 <= i < set.len(),
    ensures
        newest_at(with_mark(set, position, is_spent), n, out_point) == newest_at(set, n, out_point),
    decreases n,
{
    if n > 0 {
        lemma_newest_at_kept(set, (n - 1) as nat, out_point, position, is_spent);
    }
}

/// The outputs that pay the trustees, in the order in which they were added.
pub struct UTXOStorage {
    set: Vec<UTXO>,
}

impl View for UTXOStorage {
    type V = Seq<UTXO>;

    closed spec fn view(&self) -> Seq<UTXO> {
        self.set@
    }
}

impl UTXOStorage {
    /// No outputs yet.
    pub fn new() -> (s: UTXOStorage)
        ensures
            s@ == Seq::<UTXO>::empty(),
    {
        UTXOStorage { set: Vec::new() }
    }

    /// How many outputs have been added.
    pub fn max_index(&self) -> (n: usize)
        ensures
            n == self@.len(),
    {
        self.set.len()
    }

    /// The output that was added as the `index`-th.
    pub fn get(&self, index: usize) -> (utxo: Option<UTXO>)
        ensures
            utxo == if index < self@.len() {
                Some(self@[index as int])
            } else {
                None
            },
    {
        if index < self.set.len() {
            Some(self.set[index])
        } else {
            None
        }
    }

    /// Chooses unspent outputs to spend for `balance`: the newest ones, as many as it takes.
    pub fn select_utxo(&self, balance: u64) -> (r: Option<Vec<UTXO>>)
        ensures
            match r {
                Some(chosen) => selection(self@, balance) == Some(chosen@) && total_balance(chosen@)
                    >= balance && forall|i: int|
                    0 <= i < chosen@.len() ==> self@.contains(#[trigger] chosen@[i])
                        && !chosen@[i].is_spent,
                None => selection(self@, balance) is None,
            },
    {
        let mut index = self.set.len();
        let mut count_balance: u64 = 0;
        let mut utxo_set: Vec<UTXO> = Vec::new();
        proof {
            lemma_select_from(self@, self@.len(), 0, Seq::empty(), balance);
        }
        while index > 0
            invariant
                index <= self.set.len(),
                selection(self@, balance) == select_from(
                    self@,
                    index as nat,
                    count_balance as int,
                    utxo_set@,
                    balance,
                ),
                count_balance < balance || (count_balance == 0 && balance == 0),
                count_balance == total_balance(utxo_set@),
                forall|i: int|
                    0 <= i < utxo_set@.len() ==> self@.contains(#[trigger] utxo_set@[i])
                        && !utxo_set@[i].is_spent,
            decreases index,
        {
            index -= 1;
            let utxo = self.set[index];
            if utxo.is_spent == false {
                let ghost picked = utxo_set@;
                utxo_set.push(utxo);
                proof {
                    assert(utxo_set@.drop_last() =~= picked);
                    assert(self@[index as int] == utxo);
                    assert forall|i: int| 0 <= i < utxo_set@.len() implies self@.contains(
                        #[trigger] utxo_set@[i],
                    ) && !utxo_set@[i].is_spent by {
                        if i < picked.len() {
                            assert(utxo_set@[i] == picked[i]);
                        }
                    }
                }
                if count_balance as u128 + utxo.balance as u128 >= balance as u128 {
                    return Some(utxo_set);
                }
                count_balance += utxo.balance;
            }
        }
        None
    }

    /// Adds `new_utxos` after the outputs that are there.
    pub fn add(&mut self, new_utxos: Vec<UTXO>)
        ensures
            final(self)@ == old(self)@ + new_utxos@,
    {
        let mut i: usize = 0;
        assert(self@ =~= old(self)@ + new_utxos@.take(0));
        while i < new_utxos.len()
            invariant
                i <= new_utxos.len(),
                self@ == old(self)@ + new_utxos@.take(i as int),
            decreases new_utxos.len() - i,
        {
            self.set.push(new_utxos[i]);
            assert(self@ =~= old(self)@ + new_utxos@.take(i + 1));
            i += 1;
        }
        assert(new_utxos@.take(new_utxos.len() as int) =~= new_utxos@);
    }

    /// Position of the newest output that `out_point` names.
    fn position_of(&self, out_point: &OutPoint) -> (r: Option<usize>)
        ensures
            r.is_some() == newest_at(self@, self@.len(), *out_point).is_some(),
            r matches Some(i) ==> i < self@.len() && newest_at(self@, self@.len(), *out_point)
                == Some(i as int) && self@[i as int].is_at(*out_point),
    {
        let mut index = self.set.len();
        while index > 0
            invariant
                index <= self.set.len(),
                newest_at(self@, self@.len(), *out_point) == newest_at(
                    self@,
                    index as nat,
                    *out_point,
                ),
            decreases index,
        {
            index -= 1;
            let utxo = self.set[index];
            if out_point.hash == utxo.txid && out_point.index == utxo.index {
                return Some(index);
            }
        }
        None
    }

    /// Position of the newest output that equals `wanted`.
    fn position_equal(&self, wanted: &UTXO) -> (r: Option<usize>)
        ensures
            r.is_some() == newest_equal(self@, self@.len(), *wanted).is_some(),
            r matches Some(i) ==> i < self@.len() && newest_equal(self@, self@.len(), *wanted)
                == Some(i as int),
    {
        let mut index = self.set.len();
        while index > 0
            invariant
                index <= self.set.len(),
                newest_equal(self@, self@.len(), *wanted) == newest_equal(
                    self@,
                    index as nat,
                    *wanted,
                ),
            decreases index,
        {
            index -= 1;
            if self.set[index] == *wanted {
                return Some(index);
            }
        }
        None
    }

    /// The newest output that `out_point` names.
    pub fn find_utxo(&self, out_point: &OutPoint) -> (r: Option<UTXO>)
        ensures
            r == match newest_at(self@, self@.len(), *out_point) {
                Some(i) => Some(self@[i]),
                None => None,
            },
    {
        match self.position_of(out_point) {
            Some(i) => Some(self.set[i]),
            None => None,
        }
    }

    /// Marks the newest output that equals each of `utxos` as spent or not. Gives the sum of
    /// the balances of the outputs that were marked.
    pub fn update(&mut self, utxos: Vec<UTXO>, is_spent: bool) -> (update_balance: u128)
        ensures
            final(self)@ == updated(old(self)@, utxos@, is_spent),
            update_balance == updated_balance(old(self)@, utxos@, is_spent),
    {
        let mut update_balance: u128 = 0;
        let mut k: usize = 0;
        while k < utxos.len()
            invariant
                k <= utxos.len(),
                self@ == updated(old(self)@, utxos@.take(k as int), is_spent),
                update_balance == updated_balance(old(self)@, utxos@.take(k as int), is_spent),
                update_balance <= k * 0xffff_ffff_ffff_ffff,
            decreases utxos.len() - k,
        {
            proof {
                assert(utxos@.take(k + 1).drop_last() =~= utxos@.take(k as int));
                assert(utxos@.take(k + 1).last() == utxos@[k as int]);
                assert((k + 1) * 0xffff_ffff_ffff_ffff == k * 0xffff_ffff_ffff_ffff
                    + 0xffff_ffff_ffff_ffff) by (nonlinear_arith);
                assert(k * 0xffff_ffff_ffff_ffff <= 0xffff_ffff_ffff_ffff * 0xffff_ffff_ffff_ffff)
                    by (nonlinear_arith)
                    requires
                        k <= 0xffff_ffff_ffff_ffff,
                ;
            }
            match self.position_equal(&utxos[k]) {
                Some(i) => {
                    let mut utxo = self.set[i];
                    update_balance += utxo.balance as u128;
                    utxo.is_spent = is_spent;
                    self.set.set(i, utxo);
                },
                None => {},
            }
            k += 1;
        }
        assert(utxos@.take(utxos.len() as int) =~= utxos@);
        update_balance
    }

    /// Marks the newest output that each of `out_point_set` names as spent or not. Gives the
    /// sum of the balances of the outputs that were marked.
    pub fn update_from_outpoint(&mut self, out_point_set: Vec<OutPoint>, is_spent: bool) -> (update_balance:
        u128)
        ensures
            final(self)@ == marked(old(self)@, out_point_set@, is_spent),
            update_balance == marked_balance(old(self)@, out_point_set@, is_spent),
    {
        let mut update_balance: u128 = 0;
        let mut k: usize = 0;
        while k < out_point_set.len()
            invariant
                k <= out_point_set.len(),
                self@ == marked(old(self)@, out_point_set@.take(k as int), is_spent),
                update_balance == marked_balance(
                    old(self)@,
                    out_point_set@.take(k as int),
                    is_spent,
                ),
                update_balance <= k * 0xffff_ffff_ffff_ffff,
            decreases out_point_set.len() - k,
        {
            proof {
                assert(out_point_set@.take(k + 1).drop_last() =~= out_point_set@.take(k as int));
                assert(out_point_set@.take(k + 1).last() == out_point_set@[k as int]);
                assert((k + 1) * 0xffff_ffff_ffff_ffff == k * 0xffff_ffff_ffff_ffff
                    + 0xffff_ffff_ffff_ffff) by (nonlinear_arith);
                assert(k * 0xffff_ffff_ffff_ffff <= 0xffff_ffff_ffff_ffff * 0xffff_ffff_ffff_ffff)
                    by (nonlinear_arith)
                    requires
                        k <= 0xffff_ffff_ffff_ffff,
                ;
            }
            match self.position_of(&out_point_set[k]) {
                Some(i) => {
                    let mut utxo = self.set[i];
                    update_balance += utxo.balance as u128;
                    utxo.is_spent = is_spent;
                    self.set.set(i, utxo);
                },
                None => {},
            }
            k += 1;
        }
        assert(out_point_set@.take(out_point_set.len() as int) =~= out_point_set@);
        update_balance
    }

    /// Marks the outputs that `out_points` name as spent.
    pub fn mark_spent(&mut self, out_points: Vec<OutPoint>)
        ensures
            final(self)@ == marked(old(self)@, out_points@, true),
    {
        let _ = self.update_from_outpoint(out_points, true);
    }

    /// Marks the outputs that `out_points` name as unspent.
    pub fn mark_unspent(&mut self, out_points: Vec<OutPoint>)
        ensures
            final(self)@ == marked(old(self)@, out_points@, false),
    {
        let _ = self.update_from_outpoint(out_points, false);
    }
}

} // verus!
