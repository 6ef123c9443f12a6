//! FNV-1a 64-bit hashing of byte strings, used for every stable identifier.

use vstd::prelude::*;

use crate::util::text::{hex16, push_hex16};

verus! {

pub const FNV_OFFSET_BASIS: u64 = 0xcbf2_9ce4_8422_2325;

pub const FNV_PRIME: u64 = 0x0000_0100_0000_01b3;

/// One FNV-1a step: xor the byte in, then multiply (wrapping) by the prime.
pub open spec fn fnv_step(hash: u64, byte: u8) -> u64 {
    (hash ^ (byte as u64)).wrapping_mul(FNV_PRIME)
}

/// FNV-1a state after feeding `bytes`, in order, into the state `hash`.
pub open spec fn fnv_fold(hash: u64, bytes: Seq<u8>) -> u64
    decreases bytes.len(),
{
    if bytes.len() == 0 {
        hash
    } else {
        fnv_step(fnv_fold(hash, bytes.drop_last()), bytes.last())
    }
}

/// The FNV-1a hash of a byte string.
pub open spec fn fnv64(bytes: Seq<u8>) -> u64 {
    fnv_fold(FNV_OFFSET_BASIS, bytes)
}

/// Concatenation of a sequence of byte strings.
pub open spec fn concat_bytes(parts: Seq<Seq<u8>>) -> Seq<u8>
    decreases parts.len(),
{
    if parts.len() == 0 {
        Seq::empty()
    } else {
        concat_bytes(parts.drop_last()) + parts.last()
    }
}

/// Feeding `left` then `right` is the same as feeding `left + right`.
pub proof fn lemma_fnv_fold_append(hash: u64, left: Seq<u8>, right: Seq<u8>)
    ensures
        fnv_fold(fnv_fold(hash, left), right) == fnv_fold(hash, left + right),
    decreases right.len(),
{
    if right.len() == 0 {
        assert(left + right =~= left);
    } else {
        lemma_fnv_fold_append(hash, left, right.drop_last());
        assert((left + right).drop_last() =~= left + right.drop_last());
        assert((left + right).last() == right.last());
    }
}

#[derive(Debug, Clone)]
pub struct StableHasher {
    hash: u64,
}

impl StableHasher {
    /// The current FNV-1a state.
    pub closed spec fn state(&self) -> u64 {
        self.hash
    }

    pub fn new() -> (hasher: Self)
        ensures
            hasher.state() == FNV_OFFSET_BASIS,
    {
        Self { hash: FNV_OFFSET_BASIS }
    }

    pub fn update(&mut self, bytes: &[u8])
        ensures
            final(self).state() == fnv_fold(old(self).state(), bytes@),
    {
        let ghost start = self.hash;
        let mut index: usize = 0;
        while index < bytes.len()
            invariant
                index <= bytes@.len(),
                self.hash == fnv_fold(start, bytes@.subrange(0, index as int)),
            decreases bytes@.len() - index,
        {
            let byte = bytes[index];
            assert(bytes@.subrange(0, index + 1).drop_last() =~= bytes@.subrange(0, index as int));
            self.hash = (self.hash ^ (byte as u64)).wrapping_mul(FNV_PRIME);
            index = index + 1;
        }
        assert(bytes@.subrange(0, bytes@.len() as int) =~= bytes@);
    }

    pub fn finish(&self) -> (hash: u64)
        ensures
            hash == self.state(),
    {
        self.hash
    }
}

impl Default for StableHasher {
    fn default() -> (hasher: Self)
        ensures
            hasher.state() == FNV_OFFSET_BASIS,
    {
        Self::new()
    }
}

/// The stable 64-bit hash of a byte string.
pub fn stable_u64(bytes: &[u8]) -> (hash: u64)
    ensures
        hash == fnv64(bytes@),
{
    let mut hasher = StableHasher::new();
    hasher.update(bytes);
    hasher.finish()
}

/// The stable 64-bit hash of the concatenation of `parts`.
pub fn stable_u64_parts(parts: &[&[u8]]) -> (hash: u64)
    ensures
        hash == fnv64(concat_bytes(parts@.map_values(|part: &[u8]| part@))),
{
    let ghost views = parts@.map_values(|part: &[u8]| part@);
    let mut hasher = StableHasher::new();
    let mut index: usize = 0;
    while index < parts.len()
        invariant
            index <= parts@.len(),
            views == parts@.map_values(|part: &[u8]| part@),
            hasher.state() == fnv64(concat_bytes(views.subrange(0, index as int))),
        decreases parts@.len() - index,
    {
        let part = parts[index];
        proof {
            let prefix = views.subrange(0, index as int);
            let next = views.subrange(0, index + 1);
            assert(next.drop_last() =~= prefix);
            assert(next.last() == part@);
            lemma_fnv_fold_append(FNV_OFFSET_BASIS, concat_bytes(prefix), part@);
        }
        hasher.update(part);
        index = index + 1;
    }
    assert(views.subrange(0, parts@.len() as int) =~= views);
    hasher.finish()
}

/// Two byte strings have the same stable hex text exactly when they have the
/// same stable hash, and the text is always sixteen lowercase hex digits.
pub proof fn lemma_stable_hex_injective(a: Seq<u8>, b: Seq<u8>)
    ensures
        hex16(fnv64(a)).len() == 16,
        forall|i: int| 0 <= i < 16 ==> crate::util::text::is_hex_digit(#[trigger] hex16(fnv64(a))[i]),
        hex16(fnv64(a)) == hex16(fnv64(b)) <==> fnv64(a) == fnv64(b),
{
    crate::util::text::lemma_hex16_injective(fnv64(a), fnv64(b));
}

/// The stable hash of a byte string, as 16 lowercase hexadecimal digits.
pub fn stable_hex(bytes: &[u8]) -> (text: String)
    ensures
        text@ == hex16(fnv64(bytes@)),
{
    let mut text = String::new();
    push_hex16(&mut text, stable_u64(bytes));
    text
}

} // verus!
