//! Stable 64-bit digests over sequences of words.
use std::collections::hash_map::DefaultHasher;
use std::hash::Hasher;
use vstd::bytes::{spec_u64_to_le_bytes, u64_to_le_bytes};
use vstd::prelude::*;
use vstd::std_specs::hash::DefaultHasherAdditionalSpecFns;

verus! {

/// The writes that a digest of `words` hands to the hasher: one write per
/// word, holding its eight little-endian bytes.
pub open spec fn word_writes(words: Seq<u64>) -> Seq<Seq<u8>> {
    words.map_values(|w: u64| spec_u64_to_le_bytes(w))
}

/// The digest of a sequence of words: what a freshly created
/// `DefaultHasher` finishes with after those writes.
pub open spec fn digest(words: Seq<u64>) -> u64 {
    DefaultHasher::spec_finish(word_writes(words))
}

/// Hashes `words` in order with a freshly created `DefaultHasher`.
pub fn digest_words(words: &Vec<u64>) -> (r: u64)
    ensures
        r == digest(words@),
{
    let mut state = DefaultHasher::new();
    let mut i: usize = 0;
    while i < words.len()
        invariant
            i <= words.len(),
            state@ == word_writes(words@.take(i as int)),
        decreases words.len() - i,
    {
        let bytes = u64_to_le_bytes(words[i]);
        state.write(bytes.as_slice());
        proof {
            assert(words@.take(i as int + 1) =~= words@.take(i as int).push(words@[i as int]));
            assert(word_writes(words@.take(i as int + 1)) =~= word_writes(
                words@.take(i as int),
            ).push(spec_u64_to_le_bytes(words@[i as int])));
        }
        i += 1;
    }
    proof {
        assert(words@.take(words.len() as int) =~= words@);
    }
    state.finish()
}

} // verus!
