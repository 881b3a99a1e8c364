//! Plain value types shared by every component.

use vstd::prelude::*;

verus! {

/// Account identifier.
pub type AccountId = u64;

/// Amount of an asset, in its smallest unit.
pub type Balance = u64;

/// A 256-bit hash, held as four 64-bit words.
#[derive(Clone, Copy, PartialEq, Eq, Structural, Debug, Hash)]
pub struct H256 {
    pub w0: u64,
    pub w1: u64,
    pub w2: u64,
    pub w3: u64,
}

impl H256 {
    /// The all-zero hash, which stands for "no block" in a genesis header.
    pub open spec fn spec_zero() -> H256 {
        H256 { w0: 0, w1: 0, w2: 0, w3: 0 }
    }

    #[verifier::when_used_as_spec(spec_zero)]
    pub fn zero() -> (h: H256)
        ensures
            h == H256::spec_zero(),
    {
        H256 { w0: 0, w1: 0, w2: 0, w3: 0 }
    }

    /// Whether this is the all-zero hash.
    pub fn is_zero(&self) -> (z: bool)
        ensures
            z == (*self == H256::spec_zero()),
    {
        self.w0 == 0 && self.w1 == 0 && self.w2 == 0 && self.w3 == 0
    }
}

/// The number that the eight bytes of `bytes` from `at` on write, most significant byte first.
pub open spec fn be_word(bytes: Seq<u8>, at: int) -> u64 {
    (bytes[at] as int * 0x100_0000_0000_0000 + bytes[at + 1] as int * 0x1_0000_0000_0000 + bytes[at
        + 2] as int * 0x100_0000_0000 + bytes[at + 3] as int * 0x1_0000_0000 + bytes[at + 4] as int
        * 0x100_0000 + bytes[at + 5] as int * 0x1_0000 + bytes[at + 6] as int * 0x100 + bytes[at
        + 7] as int) as u64
}

fn word_at(bytes: &[u8; 32], at: usize) -> (w: u64)
    requires
        at + 8 <= 32,
    ensures
        w == be_word(bytes@, at as int),
{
    (bytes[at] as u64) * 0x100_0000_0000_0000 + (bytes[at + 1] as u64) * 0x1_0000_0000_0000 + (bytes[at
        + 2] as u64) * 0x100_0000_0000 + (bytes[at + 3] as u64) * 0x1_0000_0000 + (bytes[at
        + 4] as u64) * 0x100_0000 + (bytes[at + 5] as u64) * 0x1_0000 + (bytes[at + 6] as u64) * 0x100
        + (bytes[at + 7] as u64)
}

impl H256 {
    /// The hash held in the 32 bytes `bytes`: each word takes eight of them, most significant
    /// byte first.
    pub open spec fn spec_from_bytes(bytes: Seq<u8>) -> H256 {
        H256 {
            w0: be_word(bytes, 0),
            w1: be_word(bytes, 8),
            w2: be_word(bytes, 16),
            w3: be_word(bytes, 24),
        }
    }

    /// Reads a hash from its 32 bytes.
    pub fn from_bytes(bytes: &[u8; 32]) -> (h: H256)
        ensures
            h == H256::spec_from_bytes(bytes@),
    {
        H256 {
            w0: word_at(bytes, 0),
            w1: word_at(bytes, 8),
            w2: word_at(bytes, 16),
            w3: word_at(bytes, 24),
        }
    }
}

/// Compares two byte strings.
pub fn bytes_eq(a: &Vec<u8>, b: &Vec<u8>) -> (same: bool)
    ensures
        same == (a@ == b@),
{
    if a.len() != b.len() {
        return false;
    }
    let mut i: usize = 0;
    while i < a.len()
        invariant
            a.len() == b.len(),
            i <= a.len(),
            forall|j: int| 0 <= j < i ==> a@[j] == b@[j],
        decreases a.len() - i,
    {
        if a[i] != b[i] {
            return false;
        }
        i += 1;
    }
    assert(a@ =~= b@);
    true
}

/// Copies a byte string.
pub fn bytes_clone(a: &Vec<u8>) -> (copy: Vec<u8>)
    ensures
        copy@ == a@,
{
    let mut out: Vec<u8> = Vec::new();
    let mut i: usize = 0;
    while i < a.len()
        invariant
            i <= a.len(),
            out@ == a@.subrange(0, i as int),
        decreases a.len() - i,
    {
        out.push(a[i]);
        assert(a@.subrange(0, i as int).push(a@[i as int]) =~= a@.subrange(0, i + 1));
        i += 1;
    }
    assert(a@.subrange(0, a.len() as int) =~= a@);
    out
}

/// Filtering one element more: the next element is kept exactly when it meets `pred`.
pub proof fn lemma_filter_step<A>(s: Seq<A>, pred: spec_fn(A) -> bool, i: int)
    requires
        0 <= i < s.len(),
    ensures
        s.take(i + 1).filter(pred) == if pred(s[i]) {
            s.take(i).filter(pred).push(s[i])
        } else {
            s.take(i).filter(pred)
        },
{
    reveal(Seq::filter);
    assert(s.take(i + 1).drop_last() =~= s.take(i));
    assert(s.take(i + 1).last() == s[i]);
}

/// Filtering nothing gives nothing.
pub proof fn lemma_filter_empty<A>(s: Seq<A>, pred: spec_fn(A) -> bool)
    ensures
        s.take(0).filter(pred) == Seq::<A>::empty(),
{
    reveal(Seq::filter);
    assert(s.take(0) =~= Seq::<A>::empty());
}

/// The elements of one element more: the set gains that element.
pub proof fn lemma_take_to_set<A>(s: Seq<A>, i: int)
    requires
        0 <= i < s.len(),
    ensures
        s.take(i + 1).to_set() == s.take(i).to_set().insert(s[i]),
{
    let shorter = s.take(i);
    let longer = s.take(i + 1);
    assert forall|x: A| longer.to_set().contains(x) == shorter.to_set().insert(s[i]).contains(x) by {
        if longer.contains(x) {
            let j = choose|j: int| 0 <= j < longer.len() && longer[j] == x;
            if j < i {
                assert(shorter[j] == x);
            }
        }
        if shorter.contains(x) {
            let j = choose|j: int| 0 <= j < shorter.len() && shorter[j] == x;
            assert(longer[j] == x);
        }
        if x == s[i] {
            assert(longer[i] == x);
        }
    }
    assert(longer.to_set() =~= shorter.to_set().insert(s[i]));
}

} // verus!
