//! Hashing of strings to `u64`.

use vstd::prelude::*;
use std::collections::hash_map::DefaultHasher;
use std::hash::Hasher;
use vstd::std_specs::hash::DefaultHasherAdditionalSpecFns;

verus! {

/// What hashing the string `s` writes into a hasher: its UTF-8 bytes, then the
/// `0xff` terminator that makes string hashing prefix-free.
pub open spec fn string_hash_writes(s: Seq<char>) -> Seq<Seq<u8>> {
    seq![vstd::utf8::encode_utf8(s), seq![0xffu8]]
}

/// Hashes `s` with a freshly created `DefaultHasher`, writing the same byte
/// stream as `Hash for str` does.
pub fn hash_string_to_u64(s: &str) -> (h: u64)
    ensures
        h == DefaultHasher::spec_finish(string_hash_writes(s@)),
{
    let mut hasher = DefaultHasher::new();
    hasher.write(s.as_bytes());
    let terminator: [u8; 1] = [0xffu8];
    hasher.write(&terminator);
    proof {
        assert(terminator@ =~= seq![0xffu8]);
        assert(hasher@ =~= string_hash_writes(s@));
    }
    hasher.finish()
}

} // verus!
