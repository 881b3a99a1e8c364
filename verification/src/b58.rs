//! Base58, the encoding in which accounts are written into Bitcoin
//! transactions.

use vstd::prelude::*;

verus! {

/// The digit that the character `c` stands for. The digits are, in order,
/// `123456789ABCDEFGHJKLMNPQRSTUVWXYZabcdefghijkmnopqrstuvwxyz`.
pub open spec fn digit(c: u8) -> Option<nat> {
    if 0x31 <= c <= 0x39 {
        Some((c - 0x31) as nat)
    } else if 0x41 <= c <= 0x48 {
        Some((c - 0x41 + 9) as nat)
    } else if 0x4a <= c <= 0x4e {
        Some((c - 0x4a + 17) as nat)
    } else if 0x50 <= c <= 0x5a {
        Some((c - 0x50 + 22) as nat)
    } else if 0x61 <= c <= 0x6b {
        Some((c - 0x61 + 33) as nat)
    } else if 0x6d <= c <= 0x7a {
        Some((c - 0x6d + 44) as nat)
    } else {
        None
    }
}

/// Whether every character of `data` is a digit.
pub open spec fn is_valid(data: Seq<u8>) -> bool {
    forall|i: int| 0 <= i < data.len() ==> digit(#[trigger] data[i]) is Some
}

/// The number that the digits `data` write, most significant digit first.
pub open spec fn value(data: Seq<u8>) -> nat
    decreases data.len(),
{
    if data.len() == 0 {
        0
    } else {
        value(data.drop_last()) * 58 + match digit(data.last()) {
            Some(d) => d,
            None => 0,
        }
    }
}

/// The bytes of `n`, least significant first, with no zero byte at the end.
pub open spec fn le_bytes(n: nat) -> Seq<u8>
    decreases n,
{
    if n == 0 {
        Seq::empty()
    } else {
        seq![(n % 256) as u8] + le_bytes(n / 256)
    }
}

/// How many characters at the start of `data` are the digit zero, `1`.
pub open spec fn leading_ones(data: Seq<u8>) -> nat
    decreases data.len(),
{
    if data.len() == 0 || data[0] != 0x31 {
        0
    } else {
        1 + leading_ones(data.drop_first())
    }
}

/// The bytes that `data` encodes: a zero byte for each leading `1`, then the number that the
/// other digits write, most significant byte first.
pub open spec fn decoded(data: Seq<u8>) -> Seq<u8> {
    let z = leading_ones(data) as int;
    Seq::new(z as nat, |i: int| 0u8) + le_bytes(value(data.subrange(z, data.len() as int))).reverse()
}

/// The number that the bytes `bytes` write, least significant byte first.
pub open spec fn le_value(bytes: Seq<u8>) -> nat
    decreases bytes.len(),
{
    if bytes.len() == 0 {
        0
    } else {
        bytes[0] as nat + 256 * le_value(bytes.drop_first())
    }
}

/// The bytes of `bytes * 58 + carry`, least significant byte first.
pub open spec fn times_58_plus(bytes: Seq<u8>, carry: nat) -> Seq<u8>
    decreases bytes.len(),
{
    if bytes.len() == 0 {
        if carry == 0 {
            Seq::empty()
        } else {
            seq![carry as u8]
        }
    } else {
        let t = bytes[0] as nat * 58 + carry;
        seq![(t % 256) as u8] + times_58_plus(bytes.drop_first(), t / 256)
    }
}

/// Whether `bytes` has no zero byte at its end.
pub open spec fn is_trimmed(bytes: Seq<u8>) -> bool {
    bytes.len() == 0 || bytes.last() != 0
}

proof fn lemma_times_58_plus(bytes: Seq<u8>, carry: nat)
    requires
        carry < 256,
        is_trimmed(bytes),
    ensures
        le_value(times_58_plus(bytes, carry)) == le_value(bytes) * 58 + carry,
        is_trimmed(times_58_plus(bytes, carry)),
    decreases bytes.len(),
{
    if bytes.len() == 0 {
        if carry != 0 {
            let one = seq![carry as u8];
            assert(one.drop_first() =~= Seq::<u8>::empty());
            assert(le_value(one) == carry + 256 * le_value(one.drop_first()));
        }
    } else {
        let t = bytes[0] as nat * 58 + carry;
        let rest = bytes.drop_first();
        let tail = times_58_plus(rest, t / 256);
        let all = seq![(t % 256) as u8] + tail;
        assert(is_trimmed(rest)) by {
            if rest.len() > 0 {
                assert(rest.last() == bytes.last());
            }
        }
        lemma_times_58_plus(rest, t / 256);
        assert(all.drop_first() =~= tail);
        assert(all[0] == (t % 256) as u8);
        assert(le_value(all) == (t % 256) + 256 * le_value(tail));
        if tail.len() == 0 {
            assert(all.last() == (t % 256) as u8);
            if rest.len() == 0 {
                assert(t / 256 == 0);
                assert(bytes.last() == bytes[0]);
            } else {
                lemma_trimmed_positive(rest);
            }
        } else {
            assert(all.last() == tail.last());
        }
    }
}

proof fn lemma_trimmed_positive(bytes: Seq<u8>)
    requires
        bytes.len() > 0,
        is_trimmed(bytes),
    ensures
        le_value(bytes) > 0,
    decreases bytes.len(),
{
    let rest = bytes.drop_first();
    if rest.len() > 0 {
        assert(rest.last() == bytes.last());
        lemma_trimmed_positive(rest);
    } else {
        assert(bytes.last() == bytes[0]);
    }
}

proof fn lemma_le_bytes_of_value(bytes: Seq<u8>)
    requires
        is_trimmed(bytes),
    ensures
        le_bytes(le_value(bytes)) == bytes,
    decreases bytes.len(),
{
    if bytes.len() > 0 {
        let rest = bytes.drop_first();
        lemma_trimmed_positive(bytes);
        if rest.len() > 0 {
            assert(rest.last() == bytes.last());
        }
        lemma_le_bytes_of_value(rest);
        let n = le_value(bytes);
        assert(n % 256 == bytes[0] as nat);
        assert(n / 256 == le_value(rest));
        assert(seq![bytes[0]] + rest =~= bytes);
    }
}

/// The digit that the character `c` stands for.
pub fn digit_of(c: u8) -> (d: Option<u8>)
    ensures
        match d {
            Some(d) => digit(c) == Some(d as nat) && d < 58,
            None => digit(c) is None,
        },
{
    if c >= 0x31 && c <= 0x39 {
        Some(c - 0x31)
    } else if c >= 0x41 && c <= 0x48 {
        Some(c - 0x41 + 9)
    } else if c >= 0x4a && c <= 0x4e {
        Some(c - 0x4a + 17)
    } else if c >= 0x50 && c <= 0x5a {
        Some(c - 0x50 + 22)
    } else if c >= 0x61 && c <= 0x6b {
        Some(c - 0x61 + 33)
    } else if c >= 0x6d && c <= 0x7a {
        Some(c - 0x6d + 44)
    } else {
        None
    }
}

/// Replaces the number `num`, least significant byte first, by `num * 58 + carry`.
fn times_58_add(num: &mut Vec<u8>, added: u8)
    requires
        is_trimmed(old(num)@),
        added < 58,
    ensures
        is_trimmed(final(num)@),
        le_value(final(num)@) == le_value(old(num)@) * 58 + added,
{
    let ghost start = num@;
    let mut carry: u32 = added as u32;
    let mut k: usize = 0;
    assert(start.skip(0) =~= start);
    assert(num@.take(0) + times_58_plus(start, carry as nat) =~= times_58_plus(start, carry as nat));
    while k < num.len()
        invariant
            k <= num.len(),
            num.len() == start.len(),
            carry < 58,
            num@.skip(k as int) == start.skip(k as int),
            times_58_plus(start, added as nat) == num@.take(k as int) + times_58_plus(
                start.skip(k as int),
                carry as nat,
            ),
        decreases num.len() - k,
    {
        let t: u32 = num[k] as u32 * 58 + carry;
        let ghost before = num@;
        num.set(k, (t % 256) as u8);
        proof {
            let rest = start.skip(k as int);
            assert(rest[0] == start[k as int]);
            assert(rest.drop_first() =~= start.skip(k + 1));
            assert(num@.take(k + 1) =~= before.take(k as int) + seq![(t % 256) as u8]);
            assert(num@.skip(k + 1) =~= start.skip(k + 1));
            assert(before.take(k as int) + (seq![(t % 256) as u8] + times_58_plus(
                start.skip(k + 1),
                (t / 256) as nat,
            )) =~= num@.take(k + 1) + times_58_plus(start.skip(k + 1), (t / 256) as nat));
        }
        carry = t / 256;
        k += 1;
    }
    proof {
        assert(start.skip(k as int) =~= Seq::<u8>::empty());
        assert(num@.take(k as int) =~= num@);
    }
    if carry > 0 {
        let ghost before = num@;
        num.push(carry as u8);
        assert(num@ =~= before + seq![carry as u8]);
    } else {
        assert(num@ + Seq::<u8>::empty() =~= num@);
    }
    proof {
        lemma_times_58_plus(start, added as nat);
    }
}

/// Decodes `data`. The decoding fails where `data` holds a character that is no digit.
pub fn from(data: &Vec<u8>) -> (r: Result<Vec<u8>, &'static str>)
    ensures
        match r {
            Ok(bytes) => is_valid(data@) && bytes@ == decoded(data@),
            Err(e) => !is_valid(data@) && e == "Invalid base58 digit",
        },
{
    let mut z: usize = 0;
    assert(data@.skip(0) =~= data@);
    while z < data.len() && data[z] == 0x31
        invariant
            z <= data.len(),
            forall|i: int| 0 <= i < z ==> data@[i] == 0x31,
            leading_ones(data@) == z + leading_ones(data@.skip(z as int)),
        decreases data.len() - z,
    {
        proof {
            let rest = data@.skip(z as int);
            assert(rest[0] == data@[z as int]);
            assert(rest.drop_first() =~= data@.skip(z + 1));
        }
        z += 1;
    }
    proof {
        let rest = data@.skip(z as int);
        if z < data.len() {
            assert(rest[0] == data@[z as int]);
        }
        assert(leading_ones(rest) == 0);
    }
    let mut num: Vec<u8> = Vec::new();
    let mut i: usize = z;
    assert(data@.subrange(z as int, i as int) =~= Seq::<u8>::empty());
    while i < data.len()
        invariant
            z <= i <= data.len(),
            z == leading_ones(data@),
            forall|j: int| 0 <= j < i ==> digit(#[trigger] data@[j]) is Some,
            is_trimmed(num@),
            le_value(num@) == value(data@.subrange(z as int, i as int)),
        decreases data.len() - i,
    {
        let d = match digit_of(data[i]) {
            Some(d) => d,
            None => {
                return Err("Invalid base58 digit");
            },
        };
        proof {
            let longer = data@.subrange(z as int, i + 1);
            assert(longer.drop_last() =~= data@.subrange(z as int, i as int));
            assert(longer.last() == data@[i as int]);
        }
        times_58_add(&mut num, d);
        i += 1;
    }
    let mut out: Vec<u8> = Vec::new();
    let mut k: usize = 0;
    while k < z
        invariant
            k <= z,
            out@ == Seq::new(k as nat, |i: int| 0u8),
        decreases z - k,
    {
        out.push(0u8);
        assert(out@ =~= Seq::new((k + 1) as nat, |i: int| 0u8));
        k += 1;
    }
    let ghost zeros = out@;
    let mut m: usize = num.len();
    assert(out@ =~= zeros + num@.reverse().take(0));
    while m > 0
        invariant
            m <= num.len(),
            out@ == zeros + num@.reverse().take(num.len() - m),
        decreases m,
    {
        m -= 1;
        out.push(num[m]);
        assert(out@ =~= zeros + num@.reverse().take(num.len() - m));
    }
    proof {
        lemma_le_bytes_of_value(num@);
        assert(num@.reverse().take(num.len() as int) =~= num@.reverse());
    }
    Ok(out)
}

} // verus!
