//! Fixed-width big-endian representation of natural numbers.

use vstd::arithmetic::power2::*;
use vstd::prelude::*;

verus! {

/// The `len` lowest base-256 digits of `v`, most significant digit first.
pub open spec fn be_bytes(v: nat, len: nat) -> Seq<u8>
    decreases len,
{
    if len == 0 {
        Seq::empty()
    } else {
        be_bytes(v / 256, (len - 1) as nat).push((v % 256) as u8)
    }
}

/// The number whose base-256 digits, most significant digit first, are `bytes`.
pub open spec fn be_value(bytes: Seq<u8>) -> nat
    decreases bytes.len(),
{
    if bytes.len() == 0 {
        0
    } else {
        be_value(bytes.drop_last()) * 256 + bytes.last() as nat
    }
}

/// A number is written with as many digits as asked for.
pub proof fn lemma_be_bytes_len(v: nat, len: nat)
    ensures
        be_bytes(v, len).len() == len,
    decreases len,
{
    if len > 0 {
        lemma_be_bytes_len(v / 256, (len - 1) as nat);
    }
}

/// `n` digits stand for a number below `2^(8n)`.
pub proof fn lemma_be_value_bound(bytes: Seq<u8>)
    ensures
        be_value(bytes) < pow2(8 * bytes.len()),
    decreases bytes.len(),
{
    lemma2_to64();
    if bytes.len() > 0 {
        lemma_be_value_bound(bytes.drop_last());
        lemma_pow2_adds(8 * bytes.drop_last().len(), 8);
    }
}

/// Reading back the digits of a number that fits gives the number.
pub proof fn lemma_be_value_of_bytes(v: nat, len: nat)
    requires
        v < pow2(8 * len),
    ensures
        be_value(be_bytes(v, len)) == v,
    decreases len,
{
    lemma2_to64();
    if len > 0 {
        let rest = (len - 1) as nat;
        lemma_pow2_adds(8 * rest, 8);
        lemma_be_value_of_bytes(v / 256, rest);
        let digits = be_bytes(v, len);
        assert(digits.drop_last() =~= be_bytes(v / 256, rest));
    }
}

/// Writing the number that digits stand for gives the digits back.
pub proof fn lemma_be_bytes_of_value(bytes: Seq<u8>)
    ensures
        be_bytes(be_value(bytes), bytes.len()) == bytes,
    decreases bytes.len(),
{
    if bytes.len() > 0 {
        let front = bytes.drop_last();
        lemma_be_bytes_of_value(front);
        assert(be_value(bytes) / 256 == be_value(front));
        assert(be_value(bytes) % 256 == bytes.last() as nat);
        assert(be_bytes(be_value(bytes), bytes.len()) =~= bytes);
    }
}

/// Zero is written with zero digits only.
pub proof fn lemma_be_bytes_zero(len: nat)
    ensures
        be_bytes(0, len) == Seq::new(len, |i: int| 0u8),
    decreases len,
{
    if len > 0 {
        lemma_be_bytes_zero((len - 1) as nat);
    }
    lemma_be_bytes_len(0, len);
    assert(be_bytes(0, len) =~= Seq::new(len, |i: int| 0u8));
}

/// The largest number of `len` digits is written with the digit `0xFF` only.
pub proof fn lemma_be_bytes_max(len: nat)
    ensures
        pow2(8 * len) >= 1,
        be_bytes((pow2(8 * len) - 1) as nat, len) == Seq::new(len, |i: int| 0xFFu8),
    decreases len,
{
    lemma2_to64();
    lemma_pow2_pos(8 * len);
    if len > 0 {
        let rest = (len - 1) as nat;
        lemma_be_bytes_max(rest);
        lemma_pow2_adds(8 * rest, 8);
        let top = (pow2(8 * len) - 1) as nat;
        assert(top == (pow2(8 * rest) - 1) * 256 + 255);
        assert(top / 256 == pow2(8 * rest) - 1);
        assert(top % 256 == 255);
    }
    lemma_be_bytes_len((pow2(8 * len) - 1) as nat, len);
    assert(be_bytes((pow2(8 * len) - 1) as nat, len) =~= Seq::new(len, |i: int| 0xFFu8));
}

} // verus!
