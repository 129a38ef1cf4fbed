use uuid::Uuid;
use vstd::prelude::*;
use crate::text::push_char;

verus! {

/// A fresh random UUID from `uuid::Uuid::new_v4`, as its 128-bit value
/// (`Uuid::as_u128`, first byte most significant). Claimed, as `new_v4`
/// sets them: the version field holds 4 and the variant field the RFC 4122
/// bits `10`. Nothing else is stated: the other bits are random.
#[verifier::external_body]
pub(crate) fn random_uuid_value() -> (v: u128)
    ensures
        is_random_uuid(v),
{
    Uuid::new_v4().as_u128()
}

/// Whether `v` is laid out as a random (version 4, RFC 4122 variant) UUID.
pub open spec fn is_random_uuid(v: u128) -> bool {
    (v >> 76u128) & 0xfu128 == 4 && (v >> 62u128) & 0x3u128 == 2
}

/// The lowercase hexadecimal character of a nibble `d` (0..=15).
pub open spec fn hex_char(d: int) -> char {
    if d < 10 {
        (48 + d) as char
    } else {
        (87 + d) as char
    }
}

/// The `count` lowest hexadecimal digits of `v`, most significant first.
pub open spec fn hex_digits(v: nat, count: nat) -> Seq<char>
    decreases count,
{
    if count == 0 {
        Seq::empty()
    } else {
        hex_digits(v / 16, (count - 1) as nat).push(hex_char((v % 16) as int))
    }
}

/// The hyphenated lowercase text of a UUID whose 128-bit value is `v`
/// (8-4-4-4-12 hexadecimal digits), as `uuid::Uuid` displays it.
pub open spec fn uuid_text(v: u128) -> Seq<char> {
    let d = hex_digits(v as nat, 32);
    d.subrange(0, 8) + seq!['-'] + d.subrange(8, 12) + seq!['-'] + d.subrange(12, 16)
        + seq!['-'] + d.subrange(16, 20) + seq!['-'] + d.subrange(20, 32)
}

proof fn lemma_hex_digits_len(v: nat, count: nat)
    ensures
        hex_digits(v, count).len() == count,
    decreases count,
{
    if count > 0 {
        lemma_hex_digits_len(v / 16, (count - 1) as nat);
    }
}

fn hex_digit_char(d: u8) -> (c: char)
    requires
        d < 16,
    ensures
        c == hex_char(d as int),
{
    if d < 10 {
        (48u8 + d) as char
    } else {
        (87u8 + d) as char
    }
}

fn push_hex_digits(out: &mut Vec<char>, v: u128, count: u8)
    ensures
        final(out)@ == old(out)@ + hex_digits(v as nat, count as nat),
    decreases count,
{
    if count > 0 {
        push_hex_digits(out, v / 16, count - 1);
        out.push(hex_digit_char((v % 16) as u8));
        assert(final(out)@ =~= old(out)@ + hex_digits(v as nat, count as nat));
    } else {
        assert(final(out)@ =~= old(out)@ + hex_digits(v as nat, count as nat));
    }
}

fn push_range(out: &mut String, cs: &Vec<char>, from: usize, to: usize)
    requires
        from <= to <= cs@.len(),
    ensures
        final(out)@ == old(out)@ + cs@.subrange(from as int, to as int),
{
    let mut i = from;
    while i < to
        invariant
            from <= i <= to <= cs@.len(),
            out@ == old(out)@ + cs@.subrange(from as int, i as int),
        decreases to - i,
    {
        push_char(out, cs[i]);
        i = i + 1;
        assert(out@ =~= old(out)@ + cs@.subrange(from as int, i as int));
    }
}

/// The hyphenated lowercase text of the UUID whose value is `v`.
pub fn uuid_string(v: u128) -> (s: String)
    ensures
        s@ == uuid_text(v),
{
    let mut digits: Vec<char> = Vec::new();
    push_hex_digits(&mut digits, v, 32);
    proof {
        lemma_hex_digits_len(v as nat, 32);
        assert(digits@ =~= hex_digits(v as nat, 32));
    }
    let mut s = String::new();
    push_range(&mut s, &digits, 0, 8);
    push_char(&mut s, '-');
    push_range(&mut s, &digits, 8, 12);
    push_char(&mut s, '-');
    push_range(&mut s, &digits, 12, 16);
    push_char(&mut s, '-');
    push_range(&mut s, &digits, 16, 20);
    push_char(&mut s, '-');
    push_range(&mut s, &digits, 20, 32);
    assert(s@ =~= uuid_text(v));
    s
}

/// The first eight characters of the UUID text of `v` (the hexadecimal
/// digits of its first four bytes).
pub fn uuid_prefix8(v: u128) -> (s: String)
    ensures
        s@ == uuid_text(v).take(8),
{
    let mut digits: Vec<char> = Vec::new();
    push_hex_digits(&mut digits, v, 32);
    proof {
        lemma_hex_digits_len(v as nat, 32);
        assert(digits@ =~= hex_digits(v as nat, 32));
    }
    let mut s = String::new();
    push_range(&mut s, &digits, 0, 8);
    assert(s@ =~= uuid_text(v).take(8));
    s
}

} // verus!
