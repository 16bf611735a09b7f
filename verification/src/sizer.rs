//! Method-table sizing: capacities are powers of two, scaled up to keep the
//! load factor low, and never below a fixed minimum.
use vstd::prelude::*;

verus! {

/// Method table sizes are multiplied by this value in an attempt to reduce
/// the amount of collisions when performing dynamic dispatch. Each slot is
/// only one word, so the extra memory is a small one-time cost, while a
/// collision costs on every dynamic dispatch.
pub const METHOD_TABLE_FACTOR: usize = 4;

/// The minimum number of slots in a method table, so that even types with few
/// methods have as few collisions as possible. This value must be a power of
/// two.
pub const METHOD_TABLE_MIN_SIZE: usize = 64;

/// The largest method count the planner admits per class; a class beyond it
/// is not admissible, and the bound keeps every slot index within `u16`.
pub const MAX_CLASS_METHODS: usize = 16384;

/// Whether `n` is a power of two. Zero is not.
pub open spec fn is_pow2(n: nat) -> bool
    decreases n,
{
    if n == 0 {
        false
    } else if n == 1 {
        true
    } else {
        n % 2 == 0 && is_pow2(n / 2)
    }
}

/// The least power of two that is `n` or more, for `n >= 1`.
pub open spec fn least_pow2(n: nat) -> nat
    decreases n,
{
    if n <= 1 {
        1
    } else {
        2 * least_pow2((n + 1) / 2)
    }
}

/// `next_pow2`: zero stays zero; any other count rounds up to a power of two.
pub open spec fn next_pow2_spec(n: nat) -> nat {
    if n == 0 {
        0
    } else {
        least_pow2(n)
    }
}

/// The capacity of a method table for a class with `n` instance methods:
/// `max(next_pow2(n) * 4, 64)`.
pub open spec fn table_capacity_spec(n: nat) -> nat {
    let raw = next_pow2_spec(n) * METHOD_TABLE_FACTOR as nat;
    if raw > METHOD_TABLE_MIN_SIZE as nat {
        raw
    } else {
        METHOD_TABLE_MIN_SIZE as nat
    }
}

/// `least_pow2(n)` is a power of two, at least `n`, and less than `2n`.
pub proof fn lemma_least_pow2_props(n: nat)
    requires
        n >= 1,
    ensures
        is_pow2(least_pow2(n)),
        least_pow2(n) >= n,
        least_pow2(n) < 2 * n,
    decreases n,
{
    if n > 1 {
        let m = ((n + 1) / 2) as nat;
        lemma_least_pow2_props(m);
        assert(least_pow2(n) == 2 * least_pow2(m));
        assert(is_pow2(2 * least_pow2(m)));
    }
}

/// Of two powers of two, the smaller divides the larger: if `p < q` then
/// `2p <= q`.
pub proof fn lemma_pow2_ordering(p: nat, q: nat)
    requires
        is_pow2(p),
        is_pow2(q),
        p < q,
    ensures
        2 * p <= q,
    decreases q,
{
    if q > 1 {
        if p < q / 2 {
            lemma_pow2_ordering(p, q / 2);
        } else if p > q / 2 {
            lemma_pow2_ordering(q / 2, p);
        }
    }
}

/// A power of two in `[n, 2n)` is the least power of two at or above `n`.
pub proof fn lemma_pow2_unique(p: nat, n: nat)
    requires
        n >= 1,
        is_pow2(p),
        p >= n,
        p < 2 * n,
    ensures
        p == least_pow2(n),
{
    lemma_least_pow2_props(n);
    let q = least_pow2(n);
    if p < q {
        lemma_pow2_ordering(p, q);
    } else if q < p {
        lemma_pow2_ordering(q, p);
    }
}

/// Table capacities are powers of two and at least the minimum size.
pub proof fn lemma_table_capacity_pow2(n: nat)
    ensures
        is_pow2(table_capacity_spec(n)),
        table_capacity_spec(n) >= METHOD_TABLE_MIN_SIZE as nat,
{
    assert(is_pow2(64)) by {
        reveal_with_fuel(is_pow2, 8);
    }
    if n > 0 {
        lemma_least_pow2_props(n);
        let p = least_pow2(n);
        assert(is_pow2(4 * p)) by {
            reveal_with_fuel(is_pow2, 3);
            assert(4 * p % 2 == 0 && (4 * p / 2) == 2 * p);
            assert(2 * p % 2 == 0 && (2 * p / 2) == p);
        }
    }
}

/// A `u32` power of two in bit form: `and`-ing it with its predecessor
/// clears every bit.
pub proof fn lemma_pow2_bit_form(c: u32)
    requires
        is_pow2(c as nat),
    ensures
        c & ((c - 1) as u32) == 0,
    decreases c,
{
    if c as nat == 1 {
        assert(1u32 & ((1u32 - 1) as u32) == 0) by (bit_vector);
    } else {
        let d = c / 2;
        assert(c as nat % 2 == 0 && is_pow2(c as nat / 2));
        lemma_pow2_bit_form(d);
        assert(d & ((d - 1) as u32) == 0 && d >= 1 && c == (2 * d) as u32 ==> c & ((c - 1) as u32)
            == 0) by (bit_vector);
        assert(c == (2 * d) as u32);
    }
}

/// Rounds the given value to the nearest power of two (upwards; zero stays
/// zero).
pub fn round_methods(value: usize) -> (r: usize)
    requires
        value <= MAX_CLASS_METHODS,
    ensures
        r == next_pow2_spec(value as nat),
{
    if value == 0 {
        return 0;
    }
    let mut p: usize = 1;
    while p < value
        invariant
            1 <= value <= MAX_CLASS_METHODS,
            1 <= p <= 2 * MAX_CLASS_METHODS,
            is_pow2(p as nat),
            (p as nat) < 2 * (value as nat),
        decreases 2 * (value as int) - p,
    {
        proof {
            assert(is_pow2(2 * p as nat)) by {
                reveal_with_fuel(is_pow2, 2);
                assert(2 * p as nat % 2 == 0 && 2 * p as nat / 2 == p as nat);
            }
        }
        p = p * 2;
    }
    proof {
        lemma_pow2_unique(p as nat, value as nat);
    }
    p
}

/// The method-table capacity for a class with `count` instance methods.
pub fn table_capacity(count: usize) -> (cap: usize)
    requires
        count <= MAX_CLASS_METHODS,
    ensures
        cap == table_capacity_spec(count as nat),
        64 <= cap <= 65536,
{
    let rounded = round_methods(count);
    proof {
        if count > 0 {
            lemma_least_pow2_props(count as nat);
            if rounded as nat > MAX_CLASS_METHODS as nat {
                assert(is_pow2(MAX_CLASS_METHODS as nat)) by {
                    reveal_with_fuel(is_pow2, 16);
                }
                lemma_pow2_ordering(MAX_CLASS_METHODS as nat, rounded as nat);
            }
        }
    }
    let raw = rounded * METHOD_TABLE_FACTOR;
    if raw > METHOD_TABLE_MIN_SIZE {
        raw
    } else {
        METHOD_TABLE_MIN_SIZE
    }
}

} // verus!
