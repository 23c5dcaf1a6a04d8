//! Bit masks that select filters and features.
use vstd::prelude::*;

verus! {

/// Whether bit number `bit` of `value` is one.
pub open spec fn bit_is_set(value: usize, bit: u32) -> bool {
    value & (1usize << bit) != 0
}

proof fn lemma_or_bit(acc: usize, bit: u32, other: u32)
    requires
        bit < usize::BITS,
        other < usize::BITS,
    ensures
        bit_is_set(acc | (1usize << bit), other) <==> (bit_is_set(acc, other) || other == bit),
{
    assert((acc | (1usize << bit)) & (1usize << other) != 0 <==> (acc & (1usize << other) != 0
        || other == bit)) by (bit_vector)
        requires
            bit < usize::BITS,
            other < usize::BITS,
    ;
}

proof fn lemma_zero_has_no_bit(other: u32)
    requires
        other < usize::BITS,
    ensures
        !bit_is_set(0usize, other),
{
    assert(0usize & (1usize << other) == 0) by (bit_vector);
}

/// Whether bit number `bit` of `value` is one.
pub fn is_bit_set(value: usize, bit: u32) -> (r: bool)
    requires
        bit < usize::BITS,
    ensures
        r == bit_is_set(value, bit),
{
    (value & (1usize << bit)) != 0
}

/// The mask in which exactly the bits listed in `positions` are one.
pub fn set_bits(positions: &[u32]) -> (mask: usize)
    requires
        forall|i: int| 0 <= i < positions@.len() ==> positions@[i] < usize::BITS,
    ensures
        forall|b: u32| b < usize::BITS ==> (bit_is_set(mask, b) <==> positions@.contains(b)),
{
    let mut mask: usize = 0;
    let mut i: usize = 0;
    proof {
        assert forall|b: u32| b < usize::BITS implies !bit_is_set(mask, b) by {
            lemma_zero_has_no_bit(b);
        }
    }
    while i < positions.len()
        invariant
            i <= positions@.len(),
            forall|k: int| 0 <= k < positions@.len() ==> positions@[k] < usize::BITS,
            forall|b: u32|
                b < usize::BITS ==> (bit_is_set(mask, b) <==> positions@.take(i as int).contains(
                    b,
                )),
        decreases positions@.len() - i,
    {
        let bit: u32 = positions[i];
        let next: usize = mask | (1usize << bit);
        proof {
            let before = positions@.take(i as int);
            let after = positions@.take(i as int + 1);
            assert(after =~= before.push(bit));
            assert forall|b: u32| b < usize::BITS implies (bit_is_set(next, b) <==> after.contains(
                b,
            )) by {
                lemma_or_bit(mask, bit, b);
                if before.contains(b) {
                    let k = choose|k: int| 0 <= k < before.len() && before[k] == b;
                    assert(after[k] == b);
                }
                if b == bit {
                    assert(after[i as int] == b);
                }
                if after.contains(b) {
                    let k = choose|k: int| 0 <= k < after.len() && after[k] == b;
                    if k < i {
                        assert(before[k] == b);
                    }
                }
            }
        }
        mask = next;
        i = i + 1;
    }
    proof {
        assert(positions@.take(i as int) =~= positions@);
    }
    mask
}

} // verus!
