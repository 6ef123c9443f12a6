//! Text building blocks: hexadecimal and decimal digits, appending to
//! strings, and the byte-wise order in which `String`s compare.

use vstd::prelude::*;

use vstd::string::StringExecFns;

verus! {

/// The lowercase hexadecimal digit for `n` (taken modulo 16).
pub open spec fn hex_digit(n: u64) -> char {
    let d = n % 16;
    if d == 0 { '0' } else if d == 1 { '1' } else if d == 2 { '2' } else if d == 3 { '3' }
    else if d == 4 { '4' } else if d == 5 { '5' } else if d == 6 { '6' } else if d == 7 { '7' }
    else if d == 8 { '8' } else if d == 9 { '9' } else if d == 10 { 'a' } else if d == 11 { 'b' }
    else if d == 12 { 'c' } else if d == 13 { 'd' } else if d == 14 { 'e' } else { 'f' }
}

/// The decimal digit for `n` (taken modulo 10).
pub open spec fn dec_digit(n: nat) -> char {
    let d = n % 10;
    if d == 0 { '0' } else if d == 1 { '1' } else if d == 2 { '2' } else if d == 3 { '3' }
    else if d == 4 { '4' } else if d == 5 { '5' } else if d == 6 { '6' } else if d == 7 { '7' }
    else if d == 8 { '8' } else { '9' }
}

/// The 16 hexadecimal digits of `value`, most significant first, zero padded.
pub open spec fn hex16(value: u64) -> Seq<char> {
    Seq::new(16, |i: int| hex_digit(value >> ((60 - 4 * i) as u64)))
}

/// Every character of a 16-digit hex text is a lowercase hex digit.
pub open spec fn is_hex_digit(c: char) -> bool {
    ('0' <= c && c <= '9') || ('a' <= c && c <= 'f')
}

proof fn lemma_hex_digit_injective(n: u64, m: u64)
    requires
        hex_digit(n) == hex_digit(m),
    ensures
        n % 16 == m % 16,
{
}

proof fn lemma_nibbles_determine(a: u64, b: u64)
    by (bit_vector)
    requires
        (a >> 60u64) % 16 == (b >> 60u64) % 16,
        (a >> 56u64) % 16 == (b >> 56u64) % 16,
        (a >> 52u64) % 16 == (b >> 52u64) % 16,
        (a >> 48u64) % 16 == (b >> 48u64) % 16,
        (a >> 44u64) % 16 == (b >> 44u64) % 16,
        (a >> 40u64) % 16 == (b >> 40u64) % 16,
        (a >> 36u64) % 16 == (b >> 36u64) % 16,
        (a >> 32u64) % 16 == (b >> 32u64) % 16,
        (a >> 28u64) % 16 == (b >> 28u64) % 16,
        (a >> 24u64) % 16 == (b >> 24u64) % 16,
        (a >> 20u64) % 16 == (b >> 20u64) % 16,
        (a >> 16u64) % 16 == (b >> 16u64) % 16,
        (a >> 12u64) % 16 == (b >> 12u64) % 16,
        (a >> 8u64) % 16 == (b >> 8u64) % 16,
        (a >> 4u64) % 16 == (b >> 4u64) % 16,
        (a >> 0u64) % 16 == (b >> 0u64) % 16,
    ensures
        a == b,
{
}

/// The 16-digit hex text of a 64-bit value is sixteen lowercase hex digits,
/// and different values have different texts.
pub proof fn lemma_hex16_injective(a: u64, b: u64)
    ensures
        hex16(a).len() == 16,
        forall|i: int| 0 <= i < 16 ==> is_hex_digit(#[trigger] hex16(a)[i]),
        hex16(a) == hex16(b) <==> a == b,
{
    if hex16(a) == hex16(b) {
        assert(hex16(a)[0] == hex16(b)[0]);
        assert(hex_digit(a >> 60u64) == hex_digit(b >> 60u64));
        lemma_hex_digit_injective(a >> 60u64, b >> 60u64);
        assert(hex16(a)[1] == hex16(b)[1]);
        assert(hex_digit(a >> 56u64) == hex_digit(b >> 56u64));
        lemma_hex_digit_injective(a >> 56u64, b >> 56u64);
        assert(hex16(a)[2] == hex16(b)[2]);
        assert(hex_digit(a >> 52u64) == hex_digit(b >> 52u64));
        lemma_hex_digit_injective(a >> 52u64, b >> 52u64);
        assert(hex16(a)[3] == hex16(b)[3]);
        assert(hex_digit(a >> 48u64) == hex_digit(b >> 48u64));
        lemma_hex_digit_injective(a >> 48u64, b >> 48u64);
        assert(hex16(a)[4] == hex16(b)[4]);
        assert(hex_digit(a >> 44u64) == hex_digit(b >> 44u64));
        lemma_hex_digit_injective(a >> 44u64, b >> 44u64);
        assert(hex16(a)[5] == hex16(b)[5]);
        assert(hex_digit(a >> 40u64) == hex_digit(b >> 40u64));
        lemma_hex_digit_injective(a >> 40u64, b >> 40u64);
        assert(hex16(a)[6] == hex16(b)[6]);
        assert(hex_digit(a >> 36u64) == hex_digit(b >> 36u64));
        lemma_hex_digit_injective(a >> 36u64, b >> 36u64);
        assert(hex16(a)[7] == hex16(b)[7]);
        assert(hex_digit(a >> 32u64) == hex_digit(b >> 32u64));
        lemma_hex_digit_injective(a >> 32u64, b >> 32u64);
        assert(hex16(a)[8] == hex16(b)[8]);
        assert(hex_digit(a >> 28u64) == hex_digit(b >> 28u64));
        lemma_hex_digit_injective(a >> 28u64, b >> 28u64);
        assert(hex16(a)[9] == hex16(b)[9]);
        assert(hex_digit(a >> 24u64) == hex_digit(b >> 24u64));
        lemma_hex_digit_injective(a >> 24u64, b >> 24u64);
        assert(hex16(a)[10] == hex16(b)[10]);
        assert(hex_digit(a >> 20u64) == hex_digit(b >> 20u64));
        lemma_hex_digit_injective(a >> 20u64, b >> 20u64);
        assert(hex16(a)[11] == hex16(b)[11]);
        assert(hex_digit(a >> 16u64) == hex_digit(b >> 16u64));
        lemma_hex_digit_injective(a >> 16u64, b >> 16u64);
        assert(hex16(a)[12] == hex16(b)[12]);
        assert(hex_digit(a >> 12u64) == hex_digit(b >> 12u64));
        lemma_hex_digit_injective(a >> 12u64, b >> 12u64);
        assert(hex16(a)[13] == hex16(b)[13]);
        assert(hex_digit(a >> 8u64) == hex_digit(b >> 8u64));
        lemma_hex_digit_injective(a >> 8u64, b >> 8u64);
        assert(hex16(a)[14] == hex16(b)[14]);
        assert(hex_digit(a >> 4u64) == hex_digit(b >> 4u64));
        lemma_hex_digit_injective(a >> 4u64, b >> 4u64);
        assert(hex16(a)[15] == hex16(b)[15]);
        assert(hex_digit(a >> 0u64) == hex_digit(b >> 0u64));
        lemma_hex_digit_injective(a >> 0u64, b >> 0u64);
        lemma_nibbles_determine(a, b);
    }
}

/// The decimal text of `n`, without sign or leading zeros.
pub open spec fn dec_text(n: nat) -> Seq<char>
    decreases n,
{
    if n < 10 {
        seq![dec_digit(n)]
    } else {
        dec_text(n / 10).push(dec_digit(n))
    }
}

/// Calls `String::push`; the contract claims that the text afterwards is
/// the text before with `c` appended.
#[verifier::external_body]
pub(crate) fn push_char(text: &mut String, c: char)
    ensures
        final(text)@ == old(text)@.push(c),
{
    text.push(c);
}

/// Appends a string slice.
pub fn push_str(text: &mut String, suffix: &str)
    ensures
        final(text)@ == old(text)@ + suffix@,
{
    text.append(suffix);
}

fn hex_char(d: u64) -> (c: char)
    requires
        d < 16,
    ensures
        c == hex_digit(d),
{
    match d {
        0 => '0', 1 => '1', 2 => '2', 3 => '3', 4 => '4', 5 => '5', 6 => '6', 7 => '7',
        8 => '8', 9 => '9', 10 => 'a', 11 => 'b', 12 => 'c', 13 => 'd', 14 => 'e', _ => 'f',
    }
}

fn dec_char(d: u64) -> (c: char)
    requires
        d < 10,
    ensures
        c == dec_digit(d as nat),
{
    match d {
        0 => '0', 1 => '1', 2 => '2', 3 => '3', 4 => '4', 5 => '5', 6 => '6', 7 => '7',
        8 => '8', _ => '9',
    }
}

/// Appends the 16 lowercase hexadecimal digits of `value`.
pub fn push_hex16(text: &mut String, value: u64)
    ensures
        final(text)@ == old(text)@ + hex16(value),
{
    let ghost start = text@;
    let mut index: u64 = 0;
    while index < 16
        invariant
            index <= 16,
            text@ == start + hex16(value).subrange(0, index as int),
        decreases 16 - index,
    {
        let shift: u64 = 60 - 4 * index;
        let digit = (value >> shift) & 0xf;
        assert((value >> shift) & 0xf == (value >> shift) % 16) by (bit_vector);
        let c = hex_char(digit);
        assert(hex_digit(digit) == hex_digit(value >> shift));
        push_char(text, c);
        proof {
            assert(hex16(value).subrange(0, index + 1) =~= hex16(value).subrange(0, index as int).push(c));
        }
        index = index + 1;
    }
    assert(hex16(value).subrange(0, 16) =~= hex16(value));
}

/// Appends the decimal text of `value`.
pub fn push_decimal(text: &mut String, value: u64)
    ensures
        final(text)@ == old(text)@ + dec_text(value as nat),
    decreases value,
{
    if value < 10 {
        push_char(text, dec_char(value));
        assert(dec_text(value as nat) =~= seq![dec_digit(value as nat)]);
    } else {
        push_decimal(text, value / 10);
        let c = dec_char(value % 10);
        assert(dec_digit((value % 10) as nat) == dec_digit(value as nat));
        push_char(text, c);
        assert(dec_text(value as nat) == dec_text((value / 10) as nat).push(dec_digit(value as nat)));
    }
}

/// The decimal text of `value` as a new string.
pub fn decimal_string(value: u64) -> (text: String)
    ensures
        text@ == dec_text(value as nat),
{
    let mut text = String::new();
    push_decimal(&mut text, value);
    assert(Seq::<char>::empty() + dec_text(value as nat) =~= dec_text(value as nat));
    text
}

/// A copy of `s` (`str::to_string`).
pub fn str_to_string(s: &str) -> (text: String)
    ensures
        text@ == s@,
{
    s.to_owned()
}

/// Byte-wise lexicographic "less than", the order of `str` and `String`.
pub open spec fn bytes_lt(a: Seq<u8>, b: Seq<u8>) -> bool
    decreases a.len(),
{
    if a.len() == 0 {
        b.len() > 0
    } else if b.len() == 0 {
        false
    } else if a[0] != b[0] {
        a[0] < b[0]
    } else {
        bytes_lt(a.drop_first(), b.drop_first())
    }
}

/// The byte-wise order of two texts, given by their characters.
pub open spec fn text_lt(a: Seq<char>, b: Seq<char>) -> bool {
    bytes_lt(vstd::utf8::encode_utf8(a), vstd::utf8::encode_utf8(b))
}

pub proof fn lemma_bytes_lt_irreflexive(a: Seq<u8>)
    ensures
        !bytes_lt(a, a),
    decreases a.len(),
{
    if a.len() > 0 {
        lemma_bytes_lt_irreflexive(a.drop_first());
    }
}

pub proof fn lemma_bytes_lt_total(a: Seq<u8>, b: Seq<u8>)
    ensures
        a == b || bytes_lt(a, b) || bytes_lt(b, a),
    decreases a.len(),
{
    if a.len() > 0 && b.len() > 0 && a[0] == b[0] {
        lemma_bytes_lt_total(a.drop_first(), b.drop_first());
        if a.drop_first() == b.drop_first() {
            assert(a =~= seq![a[0]] + a.drop_first());
            assert(b =~= seq![b[0]] + b.drop_first());
        }
    } else if a.len() == 0 && b.len() == 0 {
        assert(a =~= b);
    }
}

pub proof fn lemma_bytes_lt_asymmetric(a: Seq<u8>, b: Seq<u8>)
    ensures
        bytes_lt(a, b) ==> !bytes_lt(b, a),
    decreases a.len(),
{
    if a.len() > 0 && b.len() > 0 && a[0] == b[0] {
        lemma_bytes_lt_asymmetric(a.drop_first(), b.drop_first());
    }
}

pub proof fn lemma_bytes_lt_transitive(a: Seq<u8>, b: Seq<u8>, c: Seq<u8>)
    ensures
        bytes_lt(a, b) && bytes_lt(b, c) ==> bytes_lt(a, c),
    decreases a.len(),
{
    if a.len() > 0 && b.len() > 0 && c.len() > 0 && a[0] == b[0] && b[0] == c[0] {
        lemma_bytes_lt_transitive(a.drop_first(), b.drop_first(), c.drop_first());
    }
}

/// The order of texts is a strict total order.
pub proof fn lemma_text_lt_order(a: Seq<char>, b: Seq<char>)
    ensures
        a == b || text_lt(a, b) || text_lt(b, a),
        text_lt(a, b) ==> !text_lt(b, a),
        !text_lt(a, a),
{
    let ea = vstd::utf8::encode_utf8(a);
    let eb = vstd::utf8::encode_utf8(b);
    lemma_bytes_lt_total(ea, eb);
    lemma_bytes_lt_asymmetric(ea, eb);
    lemma_bytes_lt_irreflexive(ea);
    vstd::utf8::encode_utf8_decode_utf8(a);
    vstd::utf8::encode_utf8_decode_utf8(b);
}

pub proof fn lemma_text_lt_transitive(a: Seq<char>, b: Seq<char>, c: Seq<char>)
    ensures
        text_lt(a, b) && text_lt(b, c) ==> text_lt(a, c),
{
    lemma_bytes_lt_transitive(
        vstd::utf8::encode_utf8(a),
        vstd::utf8::encode_utf8(b),
        vstd::utf8::encode_utf8(c),
    );
}

/// Three-way byte-wise comparison of two byte strings: -1, 0 or 1.
pub fn compare_bytes(a: &[u8], b: &[u8]) -> (order: i8)
    ensures
        order == -1 <==> bytes_lt(a@, b@),
        order == 0 <==> a@ == b@,
        order == 1 <==> bytes_lt(b@, a@),
        -1 <= order <= 1,
{
    let mut index: usize = 0;
    assert(a@.skip(0) =~= a@);
    assert(b@.skip(0) =~= b@);
    while index < a.len() && index < b.len() && a[index] == b[index]
        invariant
            index <= a@.len(),
            index <= b@.len(),
            a@.subrange(0, index as int) == b@.subrange(0, index as int),
            bytes_lt(a@, b@) == bytes_lt(a@.skip(index as int), b@.skip(index as int)),
            bytes_lt(b@, a@) == bytes_lt(b@.skip(index as int), a@.skip(index as int)),
        decreases a@.len() - index,
    {
        proof {
            let sa = a@.skip(index as int);
            let sb = b@.skip(index as int);
            assert(sa.drop_first() =~= a@.skip(index + 1));
            assert(sb.drop_first() =~= b@.skip(index + 1));
            assert(a@.subrange(0, index + 1) =~= a@.subrange(0, index as int).push(a@[index as int]));
            assert(b@.subrange(0, index + 1) =~= b@.subrange(0, index as int).push(b@[index as int]));
        }
        index = index + 1;
    }
    let ghost sa = a@.skip(index as int);
    let ghost sb = b@.skip(index as int);
    proof {
        lemma_bytes_lt_irreflexive(a@);
        lemma_bytes_lt_asymmetric(a@, b@);
        lemma_bytes_lt_total(a@, b@);
    }
    if index < a.len() && index < b.len() {
        assert(sa[0] == a@[index as int] && sb[0] == b@[index as int]);
        assert(a@ != b@ || a@[index as int] == b@[index as int]);
        if a[index] < b[index] { -1 } else { 1 }
    } else if index < b.len() {
        assert(a@ =~= a@.subrange(0, index as int));
        assert(a@ != b@);
        -1
    } else if index < a.len() {
        assert(b@ =~= b@.subrange(0, index as int));
        assert(a@ != b@);
        1
    } else {
        assert(a@ =~= a@.subrange(0, index as int));
        assert(b@ =~= b@.subrange(0, index as int));
        0
    }
}

/// Three-way comparison of two strings in the order of `str`: -1, 0 or 1.
pub fn compare_text(a: &str, b: &str) -> (order: i8)
    ensures
        order == -1 <==> text_lt(a@, b@),
        order == 0 <==> a@ == b@,
        order == 1 <==> text_lt(b@, a@),
        -1 <= order <= 1,
{
    let order = compare_bytes(a.as_bytes(), b.as_bytes());
    proof {
        vstd::utf8::encode_utf8_decode_utf8(a@);
        vstd::utf8::encode_utf8_decode_utf8(b@);
    }
    order
}

} // verus!
