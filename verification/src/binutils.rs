//! Packing a sequence of binary digits into a fixed-width unsigned integer.

use vstd::prelude::*;
use vstd::arithmetic::power2::pow2;
use vstd::arithmetic::power2::lemma_pow2_strictly_increases;
use vstd::arithmetic::power2::lemma2_to64;

verus! {

/// Why a digit sequence could not be packed into an integer.
#[derive(Debug, PartialEq, Eq, Structural, Clone, Copy)]
pub enum ConversionError {
    /// More digits than the target width holds.
    Overflow,
    /// A digit other than 0 or 1 appeared.
    NonBinaryInput,
}

/// A digit is binary: exactly 0 or 1.
pub open spec fn is_bit(b: u8) -> bool {
    b == 0 || b == 1
}

/// Every element of the sequence is a binary digit.
pub open spec fn all_bits(s: Seq<u8>) -> bool {
    forall|i: int| 0 <= i < s.len() ==> is_bit(s[i])
}

/// The unsigned integer the digits denote, first digit most significant.
pub open spec fn pack_bits(s: Seq<u8>) -> int
    decreases s.len(),
{
    if s.len() == 0 {
        0
    } else {
        pack_bits(s.drop_last()) * 2 + s.last()
    }
}

/// A sequence of binary digits denotes a value below 2^len.
pub proof fn lemma_pack_bits_bound(s: Seq<u8>)
    requires
        all_bits(s),
    ensures
        0 <= pack_bits(s) < pow2(s.len()),
    decreases s.len(),
{
    if s.len() == 0 {
        assert(pow2(0) == 1) by {
            lemma2_to64();
        }
    } else {
        let prefix = s.drop_last();
        assert(all_bits(prefix)) by {
            assert(forall|i: int| 0 <= i < prefix.len() ==> prefix[i] == s[i]);
        }
        lemma_pack_bits_bound(prefix);
        assert(pow2(s.len()) == 2 * pow2(prefix.len())) by {
            vstd::arithmetic::power2::lemma_pow2_unfold(s.len());
        }
        assert(is_bit(s.last()));
    }
}

/// The `n` low-order binary digits of `b`, most significant first.
pub open spec fn bits_of(b: int, n: nat) -> Seq<u8>
    decreases n,
{
    if n == 0 {
        Seq::empty()
    } else {
        bits_of(b / 2, (n - 1) as nat).push((b % 2) as u8)
    }
}

/// `bits_of` yields `n` binary digits.
pub proof fn lemma_bits_of_wf(b: int, n: nat)
    requires
        b >= 0,
    ensures
        bits_of(b, n).len() == n,
        all_bits(bits_of(b, n)),
    decreases n,
{
    if n > 0 {
        lemma_bits_of_wf(b / 2, (n - 1) as nat);
        let s = bits_of(b, n);
        let prefix = bits_of(b / 2, (n - 1) as nat);
        assert forall|i: int| 0 <= i < s.len() implies is_bit(s[i]) by {
            if i < s.len() - 1 {
                assert(s[i] == prefix[i]);
            } else {
                assert(s[i] == (b % 2) as u8);
            }
        }
    }
}

/// Packing the digits of a value below 2^n yields the value back.
pub proof fn lemma_pack_bits_of(b: int, n: nat)
    requires
        0 <= b < pow2(n),
    ensures
        pack_bits(bits_of(b, n)) == b,
    decreases n,
{
    if n == 0 {
        assert(pow2(0) == 1) by {
            lemma2_to64();
        }
    } else {
        let prefix = bits_of(b / 2, (n - 1) as nat);
        assert(pow2(n) == 2 * pow2((n - 1) as nat)) by {
            vstd::arithmetic::power2::lemma_pow2_unfold(n);
        }
        lemma_pack_bits_of(b / 2, (n - 1) as nat);
        lemma_bits_of_wf(b / 2, (n - 1) as nat);
        let s = bits_of(b, n);
        assert(s.drop_last() =~= prefix);
        assert(s.last() == (b % 2) as u8);
        assert(pack_bits(s) == (b / 2) * 2 + b % 2);
    }
}

/// Packs binary digits into a `u8`, first digit most significant.
///
/// Fails with `Overflow` when more than 8 digits are given, and with
/// `NonBinaryInput` when, the length being acceptable, some element is
/// neither 0 nor 1.
pub fn convert(bits: &[u8]) -> (r: Result<u8, ConversionError>)
    ensures
        bits@.len() > 8 ==> r == Err::<u8, ConversionError>(ConversionError::Overflow),
        bits@.len() <= 8 && !all_bits(bits@) ==> r == Err::<u8, ConversionError>(
            ConversionError::NonBinaryInput,
        ),
        bits@.len() <= 8 && all_bits(bits@) ==> r == Ok::<u8, ConversionError>(
            pack_bits(bits@) as u8,
        ),
{
    let n = bits.len();
    if n > 8 {
        return Err(ConversionError::Overflow);
    }
    let mut i: usize = 0;
    while i < n
        invariant
            0 <= i <= n <= 8,
            n == bits@.len(),
            forall|j: int| 0 <= j < i ==> is_bit(bits@[j]),
        decreases n - i,
    {
        let bit = bits[i];
        if bit != 0 && bit != 1 {
            return Err(ConversionError::NonBinaryInput);
        }
        i = i + 1;
    }
    assert(all_bits(bits@));
    let mut acc: u8 = 0;
    let mut i: usize = 0;
    while i < n
        invariant
            0 <= i <= n <= 8,
            n == bits@.len(),
            all_bits(bits@),
            acc == pack_bits(bits@.subrange(0, i as int)),
        decreases n - i,
    {
        let prefix = Ghost(bits@.subrange(0, i as int));
        let longer = Ghost(bits@.subrange(0, i as int + 1));
        proof {
            assert(all_bits(prefix@)) by {
                assert(forall|j: int| 0 <= j < prefix@.len() ==> prefix@[j] == bits@[j]);
            }
            lemma_pack_bits_bound(prefix@);
            assert(pow2(prefix@.len()) <= pow2(7)) by {
                if prefix@.len() < 7 {
                    lemma_pow2_strictly_increases(prefix@.len(), 7);
                }
            }
            assert(pow2(7) == 128) by {
                lemma2_to64();
            }
        }
        let bit = bits[i];
        let shifted = acc << 1u8;
        assert((acc << 1u8) ^ bit == acc * 2 + bit) by (bit_vector)
            requires
                acc < 128,
                bit < 2,
        ;
        acc = shifted ^ bit;
        proof {
            assert(longer@.drop_last() =~= prefix@);
            assert(longer@.last() == bits@[i as int]);
        }
        i = i + 1;
    }
    assert(bits@.subrange(0, n as int) =~= bits@);
    Ok(acc)
}

} // verus!
