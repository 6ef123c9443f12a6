//! Truncation of text to a byte budget without splitting a character.

use vstd::prelude::*;

use vstd::string::StringSliceAdditionalSpecFns;
use vstd::utf8::{decode_utf8, encode_utf8, is_char_boundary};

verus! {

/// The largest character boundary of `bytes` that is at most `max`.
pub open spec fn boundary_at_or_below(bytes: Seq<u8>, max: int) -> int
    decreases max,
{
    if max <= 0 {
        0
    } else if is_char_boundary(bytes, max) {
        max
    } else {
        boundary_at_or_below(bytes, max - 1)
    }
}

/// The UTF-8 bytes kept when `bytes` is cut to at most `max_bytes`: all of
/// them when they fit, else the longest prefix that ends on a character
/// boundary.
pub open spec fn truncated_bytes(bytes: Seq<u8>, max_bytes: nat) -> Seq<u8> {
    if bytes.len() <= max_bytes {
        bytes
    } else {
        bytes.subrange(0, boundary_at_or_below(bytes, max_bytes as int))
    }
}

/// The text kept when `text` is cut to at most `max_bytes` UTF-8 bytes.
pub open spec fn truncated_text(text: Seq<char>, max_bytes: nat) -> Seq<char> {
    decode_utf8(truncated_bytes(encode_utf8(text), max_bytes))
}

/// Cuts `input` to at most `max_bytes` UTF-8 bytes, at a character boundary,
/// and says whether anything was cut.
pub fn truncate_utf8(input: &str, max_bytes: usize) -> (result: (String, bool))
    ensures
        encode_utf8(result.0@) == truncated_bytes(encode_utf8(input@), max_bytes as nat),
        result.0@ == truncated_text(input@, max_bytes as nat),
        result.1 == (encode_utf8(input@).len() > max_bytes),
{
    let ghost bytes = encode_utf8(input@);
    proof {
        vstd::utf8::encode_utf8_valid_utf8(input@);
        assert(input.spec_bytes() == bytes);
    }
    if input.as_bytes().len() <= max_bytes {
        proof { vstd::utf8::encode_utf8_decode_utf8(input@); }
        return (input.to_owned(), false);
    }
    if max_bytes == 0 {
        assert(encode_utf8(Seq::<char>::empty()) =~= Seq::<u8>::empty());
        assert(bytes.subrange(0, 0) =~= Seq::<u8>::empty());
        proof { vstd::utf8::encode_utf8_decode_utf8(Seq::<char>::empty()); }
        return (String::new(), true);
    }
    let mut end = max_bytes;
    while !input.is_char_boundary(end)
        invariant
            0 <= end <= max_bytes,
            end < bytes.len(),
            vstd::utf8::valid_utf8(bytes),
            bytes == input.spec_bytes(),
            boundary_at_or_below(bytes, max_bytes as int) == boundary_at_or_below(bytes, end as int),
        decreases end,
    {
        proof {
            vstd::utf8::is_char_boundary_start_end_of_seq(bytes);
            assert(end > 0);
        }
        end = end - 1;
    }
    let (prefix, _) = input.split_at(end);
    proof {
        vstd::utf8::encode_utf8_decode_utf8(prefix@);
    }
    (prefix.to_owned(), true)
}

proof fn lemma_boundary_bounds(bytes: Seq<u8>, max: int)
    ensures
        0 <= boundary_at_or_below(bytes, max),
        max >= 0 ==> boundary_at_or_below(bytes, max) <= max,
    decreases max,
{
    if max > 0 && !is_char_boundary(bytes, max) {
        lemma_boundary_bounds(bytes, max - 1);
    }
}

/// What truncation keeps fits the budget, is a prefix of the input, and is
/// all of the input when the input already fits.
pub proof fn lemma_truncation_fits_prefix(bytes: Seq<u8>, max_bytes: nat)
    ensures
        truncated_bytes(bytes, max_bytes).len() <= max_bytes,
        truncated_bytes(bytes, max_bytes).len() <= bytes.len(),
        truncated_bytes(bytes, max_bytes) == bytes.subrange(0, truncated_bytes(bytes, max_bytes).len() as int),
        bytes.len() <= max_bytes ==> truncated_bytes(bytes, max_bytes) == bytes,
{
    if bytes.len() <= max_bytes {
        assert(bytes.subrange(0, bytes.len() as int) =~= bytes);
    } else {
        lemma_boundary_bounds(bytes, max_bytes as int);
        let end = boundary_at_or_below(bytes, max_bytes as int);
        assert(bytes.subrange(0, end).subrange(0, end) =~= bytes.subrange(0, end));
    }
}

} // verus!
