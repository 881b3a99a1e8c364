//! Reads the account that a Bitcoin transaction names in its data output.
//! The data are `<account>[:<channel>]`, with the account in base58.

use vstd::prelude::*;
use crate::b58;
use crate::primitives::{bytes_clone, AccountId};

verus! {

/// Byte that parts the account from the channel.
pub const SEPARATOR: u8 = 0x3a;

/// Length of an account once decoded: a version byte, the identifier in 32 bytes and a
/// checksum of two bytes.
pub const ACCOUNT_LEN: usize = 35;

/// The parts of `data` between the bytes `mark`.
pub open spec fn parts(data: Seq<u8>, mark: u8) -> Seq<Seq<u8>>
    decreases data.len(),
{
    if data.len() == 0 {
        seq![Seq::<u8>::empty()]
    } else {
        let before = parts(data.drop_last(), mark);
        if data.last() == mark {
            before.push(Seq::empty())
        } else {
            before.drop_last().push(before.last().push(data.last()))
        }
    }
}

/// The number that the first eight bytes of `bytes` write, least significant byte first.
pub open spec fn le_u64(bytes: Seq<u8>) -> u64 {
    (bytes[0] as int + bytes[1] as int * 0x100 + bytes[2] as int * 0x1_0000 + bytes[3] as int
        * 0x100_0000 + bytes[4] as int * 0x1_0000_0000 + bytes[5] as int * 0x100_0000_0000 + bytes[6] as int
        * 0x1_0000_0000_0000 + bytes[7] as int * 0x100_0000_0000_0000) as u64
}

/// The account identifier that `bytes` start with, if they are long enough to hold one.
pub open spec fn account_id_of(bytes: Seq<u8>) -> Option<AccountId> {
    if bytes.len() < 8 {
        None
    } else {
        Some(le_u64(bytes))
    }
}

/// The account and the channel that the data `script` name, if they name an account.
pub open spec fn binding(script: Seq<u8>) -> Option<(AccountId, Seq<u8>)> {
    let v = parts(script, SEPARATOR);
    if !b58::is_valid(v[0]) {
        None
    } else if b58::decoded(v[0]).len() != ACCOUNT_LEN {
        None
    } else {
        match account_id_of(b58::decoded(v[0]).subrange(1, 33)) {
            None => None,
            Some(id) => Some(
                (
                    id,
                    if v.len() > 1 {
                        v[1]
                    } else {
                        Seq::empty()
                    },
                ),
            ),
        }
    }
}

/// Calls `parity_codec::Decode::decode` for `u64` on `bytes`. The decoder reads eight bytes
/// and takes them as a number with the least significant byte first; it gives nothing where
/// fewer than eight bytes are left.
#[verifier::external_body]
fn decode_account_id(bytes: &Vec<u8>) -> (id: Option<AccountId>)
    ensures
        id == account_id_of(bytes@),
{
    let mut input: &[u8] = bytes.as_slice();
    parity_codec::Decode::decode(&mut input)
}

/// Byte strings of `v`.
pub open spec fn parts_view(v: Seq<Vec<u8>>) -> Seq<Seq<u8>> {
    v.map_values(|p: Vec<u8>| p@)
}

/// Data of a transaction that may name an account.
#[derive(Debug)]
pub struct Extracter(Vec<u8>);

impl View for Extracter {
    type V = Seq<u8>;

    closed spec fn view(&self) -> Seq<u8> {
        self.0@
    }
}

impl Extracter {
    /// Takes the data of a transaction.
    pub fn new(script: Vec<u8>) -> (e: Extracter)
        ensures
            e@ == script@,
    {
        Extracter(script)
    }

    /// The account and the channel that the data name, if they name an account.
    pub fn account_info(&self) -> (r: Option<(AccountId, Vec<u8>)>)
        ensures
            match r {
                Some((id, channel)) => binding(self@) == Some((id, channel@)),
                None => binding(self@) is None,
            },
    {
        let v = self.split();
        assert(parts_view(v@).len() == v@.len());
        proof {
            lemma_parts_nonempty(self@, SEPARATOR);
        }
        assert(parts_view(v@)[0] == v@[0]@);
        let account = match b58::from(&v[0]) {
            Ok(a) => a,
            Err(_) => {
                return None;
            },
        };
        if account.len() != ACCOUNT_LEN {
            return None;
        }
        let mut id_bytes: Vec<u8> = Vec::new();
        let mut i: usize = 1;
        assert(id_bytes@ =~= account@.subrange(1, i as int));
        while i < 33
            invariant
                1 <= i <= 33,
                account.len() == ACCOUNT_LEN,
                id_bytes@ == account@.subrange(1, i as int),
            decreases 33 - i,
        {
            id_bytes.push(account[i]);
            assert(id_bytes@ =~= account@.subrange(1, i + 1));
            i += 1;
        }
        let account_id = match decode_account_id(&id_bytes) {
            Some(a) => a,
            None => {
                return None;
            },
        };
        let mut channel_name: Vec<u8> = Vec::new();
        if v.len() > 1 {
            assert(parts_view(v@)[1] == v@[1]@);
            channel_name = bytes_clone(&v[1]);
        }
        Some((account_id, channel_name))
    }

    /// The parts of the data between the separators.
    pub fn split(&self) -> (v: Vec<Vec<u8>>)
        ensures
            parts_view(v@) == parts(self@, SEPARATOR),
    {
        let mut out: Vec<Vec<u8>> = Vec::new();
        let mut cur: Vec<u8> = Vec::new();
        let mut i: usize = 0;
        assert(self@.take(0) =~= Seq::<u8>::empty());
        assert(parts_view(out@).push(cur@) =~= seq![Seq::<u8>::empty()]);
        while i < self.0.len()
            invariant
                i <= self.0.len(),
                parts_view(out@).push(cur@) == parts(self@.take(i as int), SEPARATOR),
            decreases self.0.len() - i,
        {
            let c = self.0[i];
            proof {
                assert(self@.take(i + 1).drop_last() =~= self@.take(i as int));
                assert(self@.take(i + 1).last() == c);
            }
            let ghost before_out = out@;
            let ghost before_cur = cur@;
            if c == SEPARATOR {
                out.push(cur);
                cur = Vec::new();
                assert(parts_view(out@) =~= parts_view(before_out).push(before_cur));
            } else {
                cur.push(c);
                assert(parts_view(before_out).push(before_cur).drop_last() =~= parts_view(
                    before_out,
                ));
            }
            i += 1;
        }
        assert(self@.take(self.0.len() as int) =~= self@);
        let ghost before_out = out@;
        let ghost last = cur@;
        out.push(cur);
        assert(parts_view(out@) =~= parts_view(before_out).push(last));
        out
    }
}

/// Data without the byte `mark` are one part.
pub proof fn lemma_parts_of_one(data: Seq<u8>, mark: u8)
    requires
        !data.contains(mark),
    ensures
        parts(data, mark) == seq![data],
    decreases data.len(),
{
    if data.len() == 0 {
        assert(data =~= Seq::<u8>::empty());
        assert(seq![Seq::<u8>::empty()] =~= seq![data]);
    } else {
        let shorter = data.drop_last();
        assert(!shorter.contains(mark)) by {
            if shorter.contains(mark) {
                let i = choose|i: int| 0 <= i < shorter.len() && shorter[i] == mark;
                assert(data[i] == mark);
            }
        }
        assert(data[data.len() - 1] != mark);
        lemma_parts_of_one(shorter, mark);
        assert(shorter.push(data.last()) =~= data);
        assert(seq![shorter].drop_last().push(seq![shorter].last().push(data.last())) =~= seq![data]);
    }
}

/// Two pieces without the byte `mark`, put together with that byte between them, are parted
/// into those two pieces.
pub proof fn lemma_parts_of_two(first: Seq<u8>, second: Seq<u8>, mark: u8)
    requires
        !first.contains(mark),
        !second.contains(mark),
    ensures
        parts(first + seq![mark] + second, mark) == seq![first, second],
    decreases second.len(),
{
    let data = first + seq![mark] + second;
    if second.len() == 0 {
        assert(data.drop_last() =~= first);
        assert(data.last() == mark);
        lemma_parts_of_one(first, mark);
        assert(second =~= Seq::<u8>::empty());
        assert(seq![first].push(Seq::<u8>::empty()) =~= seq![first, second]);
    } else {
        let shorter = second.drop_last();
        assert(!shorter.contains(mark)) by {
            if shorter.contains(mark) {
                let i = choose|i: int| 0 <= i < shorter.len() && shorter[i] == mark;
                assert(second[i] == mark);
            }
        }
        assert(second[second.len() - 1] != mark);
        assert(data.drop_last() =~= first + seq![mark] + shorter);
        assert(data.last() == second.last());
        lemma_parts_of_two(first, shorter, mark);
        let before = seq![first, shorter];
        assert(shorter.push(second.last()) =~= second);
        assert(before.drop_last().push(before.last().push(second.last())) =~= seq![first, second]);
    }
}

/// What account data name: an account in base58 that decodes to 35 bytes, alone or followed
/// by the separator and a channel, names the account in its bytes 1 to 32 and that channel.
pub proof fn lemma_binding(account: Seq<u8>, channel: Seq<u8>)
    requires
        b58::is_valid(account),
        b58::decoded(account).len() == ACCOUNT_LEN,
        !channel.contains(SEPARATOR),
    ensures
        binding(account) == Some(
            (le_u64(b58::decoded(account).subrange(1, 33)), Seq::<u8>::empty()),
        ),
        binding(account + seq![SEPARATOR] + channel) == Some(
            (le_u64(b58::decoded(account).subrange(1, 33)), channel),
        ),
{
    assert(!account.contains(SEPARATOR)) by {
        if account.contains(SEPARATOR) {
            let i = choose|i: int| 0 <= i < account.len() && account[i] == SEPARATOR;
            assert(b58::digit(account[i]) is Some);
        }
    }
    lemma_parts_of_one(account, SEPARATOR);
    lemma_parts_of_two(account, channel, SEPARATOR);
    assert(seq![account][0] == account);
    assert(seq![account, channel][0] == account);
    assert(seq![account, channel][1] == channel);
}

/// Data always have a first part.
pub proof fn lemma_parts_nonempty(data: Seq<u8>, mark: u8)
    ensures
        parts(data, mark).len() >= 1,
    decreases data.len(),
{
    if data.len() > 0 {
        lemma_parts_nonempty(data.drop_last(), mark);
    }
}

} // verus!
