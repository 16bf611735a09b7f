//! Deterministic method hashing.
//!
//! The compiler stores each method's hash in the class's method table and the
//! runtime recomputes the same hash at dynamic-call sites, so the hash must
//! be a pure function of the key: no randomness, no per-process seeding. Any
//! fixed 64-bit mixer will do; this one folds the key's characters with an
//! FNV-1a-style multiply-and-xor.
use vstd::prelude::*;
use vstd::string::StrSliceExecFns;

verus! {

/// The hash value of the empty key, and the mixer's starting state.
pub const HASH_BASIS: u64 = 0xcbf2_9ce4_8422_2325;

/// The mixer's multiplier.
pub const HASH_PRIME: u64 = 0x100_0000_01b3;

/// One mixing step: fold one character into the running hash.
pub open spec fn hash_step(h: u64, c: char) -> u64 {
    (h ^ (c as u64)).wrapping_mul(HASH_PRIME)
}

/// The hash of a key: a pure function of the key's characters, so equal keys
/// hash equally in every compilation and in the runtime's dispatch stubs.
pub open spec fn hash_chars(s: Seq<char>) -> u64
    decreases s.len(),
{
    if s.len() == 0 {
        HASH_BASIS
    } else {
        hash_step(hash_chars(s.drop_last()), s.last())
    }
}

/// The method hasher handed to one planner invocation.
pub struct MethodHasher {}

impl MethodHasher {
    pub fn new() -> (hasher: MethodHasher) {
        MethodHasher {  }
    }

    /// The deterministic 64-bit hash of `key`.
    pub fn hash(&self, key: String) -> (h: u64)
        ensures
            h == hash_chars(key@),
    {
        let s = key.as_str();
        let n = s.unicode_len();
        let mut h: u64 = HASH_BASIS;
        let mut i: usize = 0;
        while i < n
            invariant
                n == key@.len(),
                s@ == key@,
                0 <= i <= n,
                h == hash_chars(key@.subrange(0, i as int)),
            decreases n - i,
        {
            let c = s.get_char(i);
            h = (h ^ (c as u64)).wrapping_mul(HASH_PRIME);
            proof {
                let pre = key@.subrange(0, i + 1);
                assert(pre.drop_last() =~= key@.subrange(0, i as int));
                assert(pre.last() == key@[i as int]);
            }
            i = i + 1;
        }
        proof {
            assert(key@.subrange(0, n as int) =~= key@);
        }
        h
    }
}

} // verus!
