//! Storage keys: one key for every pair of a container prefix and an index.

use vstd::bytes::{
    lemma_auto_spec_u32_to_from_le_bytes, spec_u32_from_le_bytes, spec_u32_to_le_bytes,
    u32_to_le_bytes,
};
use vstd::prelude::*;

verus! {

/// The key under which the element at `index` of the container with the
/// given prefix is kept: the prefix followed by the index as four bytes,
/// least significant first.
pub open spec fn key_of(prefix: Seq<u8>, index: u32) -> Seq<u8> {
    prefix + spec_u32_to_le_bytes(index)
}

/// Keys are injective: two keys are equal only when both the prefixes and
/// the indices are equal.
pub proof fn lemma_key_injective(prefix_a: Seq<u8>, index_a: u32, prefix_b: Seq<u8>, index_b: u32)
    ensures
        key_of(prefix_a, index_a) == key_of(prefix_b, index_b) <==> (prefix_a == prefix_b
            && index_a == index_b),
        key_of(prefix_a, index_a).len() == prefix_a.len() + 4,
{
    lemma_auto_spec_u32_to_from_le_bytes();
    let key_a = key_of(prefix_a, index_a);
    let key_b = key_of(prefix_b, index_b);
    if key_a == key_b {
        let n = prefix_a.len() as int;
        assert(key_a.subrange(0, n) =~= prefix_a);
        assert(key_b.subrange(0, n) =~= prefix_b);
        assert(key_a.subrange(n, n + 4) =~= spec_u32_to_le_bytes(index_a));
        assert(key_b.subrange(n, n + 4) =~= spec_u32_to_le_bytes(index_b));
    }
}

/// The index whose key under `prefix` is `key`, if `key` is such a key.
pub open spec fn index_of(prefix: Seq<u8>, key: Seq<u8>) -> Option<u32> {
    if key.len() == prefix.len() + 4 && key.subrange(0, prefix.len() as int) == prefix {
        Some(spec_u32_from_le_bytes(key.subrange(prefix.len() as int, key.len() as int)))
    } else {
        None
    }
}

/// `index_of` inverts `key_of`: a key names exactly one index of its
/// container, and no key of the container is missed.
pub proof fn lemma_index_of_key(prefix: Seq<u8>, index: u32, key: Seq<u8>)
    ensures
        index_of(prefix, key) == Some(index) <==> key == key_of(prefix, index),
{
    lemma_auto_spec_u32_to_from_le_bytes();
    let n = prefix.len() as int;
    if key == key_of(prefix, index) {
        assert(key.subrange(0, n) =~= prefix);
        assert(key.subrange(n, key.len() as int) =~= spec_u32_to_le_bytes(index));
    }
    if index_of(prefix, key) == Some(index) {
        let tail = key.subrange(n, key.len() as int);
        assert(key =~= key.subrange(0, n) + tail);
    }
}

/// Builds the storage key of slot `index` under `prefix`.
pub fn key_for(prefix: &[u8], index: u32) -> (key: Vec<u8>)
    ensures
        key@ == key_of(prefix@, index),
{
    let mut key: Vec<u8> = Vec::new();
    let mut i: usize = 0;
    while i < prefix.len()
        invariant
            i <= prefix.len(),
            key@ == prefix@.subrange(0, i as int),
        decreases prefix.len() - i,
    {
        key.push(prefix[i]);
        i += 1;
    }
    let mut tail = u32_to_le_bytes(index);
    key.append(&mut tail);
    key
}

} // verus!
