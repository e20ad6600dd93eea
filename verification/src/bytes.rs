//! Byte-level building blocks shared by every serializer: decimal numbers and
//! UTF-8 text appended to an output buffer.
use vstd::prelude::*;
use vstd::utf8::*;

verus! {

/// ASCII decimal digits of `n`, most significant first, without leading zeros.
pub open spec fn decimal(n: nat) -> Seq<u8>
    decreases n,
{
    if n < 10 {
        seq![(48 + n) as u8]
    } else {
        decimal(n / 10).push((48 + n % 10) as u8)
    }
}

/// The UTF-8 bytes of a character sequence.
pub open spec fn utf8(chars: Seq<char>) -> Seq<u8> {
    encode_utf8(chars)
}

pub proof fn lemma_utf8_push(chars: Seq<char>, c: char)
    ensures
        utf8(chars.push(c)) == utf8(chars) + encode_scalar(c as u32),
    decreases chars.len(),
{
    if chars.len() == 0 {
        assert(chars.push(c).drop_first() =~= Seq::<char>::empty());
        assert(encode_utf8(Seq::<char>::empty()) == Seq::<u8>::empty());
        assert(utf8(chars.push(c)) =~= encode_scalar(c as u32));
    } else {
        lemma_utf8_push(chars.drop_first(), c);
        assert(chars.push(c).drop_first() =~= chars.drop_first().push(c));
        assert(utf8(chars.push(c)) =~= utf8(chars) + encode_scalar(c as u32));
    }
}

pub proof fn lemma_utf8_concat(a: Seq<char>, b: Seq<char>)
    ensures
        utf8(a + b) == utf8(a) + utf8(b),
    decreases b.len(),
{
    if b.len() == 0 {
        assert(a + b =~= a);
        assert(utf8(a) + utf8(b) =~= utf8(a));
    } else {
        let last = b.last();
        let init = b.drop_last();
        lemma_utf8_concat(a, init);
        assert(a + b =~= (a + init).push(last));
        lemma_utf8_push(a + init, last);
        lemma_utf8_push(init, last);
        assert(init.push(last) =~= b);
        assert(utf8(a + b) =~= utf8(a) + utf8(b));
    }
}

/// Appends the decimal digits of `n`.
pub fn push_decimal(out: &mut Vec<u8>, n: u64)
    ensures
        final(out)@ == old(out)@ + decimal(n as nat),
    decreases n,
{
    if n >= 10 {
        push_decimal(out, n / 10);
    }
    let digit: u8 = (n % 10) as u8;
    out.push(48u8 + digit);
    proof {
        if n >= 10 {
            assert(final(out)@ =~= old(out)@ + decimal(n as nat));
        } else {
            assert(final(out)@ =~= old(out)@ + decimal(n as nat));
        }
    }
}

/// Appends every byte of `bytes`.
pub fn push_bytes(out: &mut Vec<u8>, bytes: &[u8])
    ensures
        final(out)@ == old(out)@ + bytes@,
{
    let ghost start = out@;
    let mut i: usize = 0;
    while i < bytes.len()
        invariant
            i <= bytes@.len(),
            out@ == start + bytes@.subrange(0, i as int),
        decreases bytes@.len() - i,
    {
        out.push(bytes[i]);
        i = i + 1;
        assert(out@ =~= start + bytes@.subrange(0, i as int));
    }
    assert(bytes@.subrange(0, i as int) =~= bytes@);
}

/// Appends the UTF-8 encoding of one Unicode scalar value.
pub fn push_scalar(out: &mut Vec<u8>, s: u32)
    requires
        is_scalar(s),
    ensures
        final(out)@ == old(out)@ + encode_scalar(s),
{
    if s <= 0x7F {
        out.push((s & 0x7F) as u8);
    } else if s <= 0x7FF {
        out.push(0xC0u8 | ((s >> 6) & 0x1F) as u8);
        out.push(0x80u8 | (s & 0x3F) as u8);
    } else if s <= 0xFFFF {
        out.push(0xE0u8 | ((s >> 12) & 0x0F) as u8);
        out.push(0x80u8 | ((s >> 6) & 0x3F) as u8);
        out.push(0x80u8 | (s & 0x3F) as u8);
    } else {
        out.push(0xF0u8 | ((s >> 18) & 0x7) as u8);
        out.push(0x80u8 | ((s >> 12) & 0x3F) as u8);
        out.push(0x80u8 | ((s >> 6) & 0x3F) as u8);
        out.push(0x80u8 | (s & 0x3F) as u8);
    }
    assert(final(out)@ =~= old(out)@ + encode_scalar(s));
}

/// Appends the UTF-8 encoding of one character.
pub fn push_char(out: &mut Vec<u8>, c: char)
    ensures
        final(out)@ == old(out)@ + encode_scalar(c as u32),
{
    proof {
        char_is_scalar(c);
    }
    push_scalar(out, c as u32);
}

/// Appends the UTF-8 encoding of a character sequence.
pub fn push_chars(out: &mut Vec<u8>, chars: &[char])
    ensures
        final(out)@ == old(out)@ + utf8(chars@),
{
    let ghost start = out@;
    let mut i: usize = 0;
    assert(chars@.subrange(0, 0) =~= Seq::<char>::empty());
    assert(utf8(Seq::<char>::empty()) == Seq::<u8>::empty());
    assert(out@ =~= start + utf8(chars@.subrange(0, 0)));
    while i < chars.len()
        invariant
            i <= chars@.len(),
            out@ == start + utf8(chars@.subrange(0, i as int)),
        decreases chars@.len() - i,
    {
        push_char(out, chars[i]);
        proof {
            lemma_utf8_push(chars@.subrange(0, i as int), chars@[i as int]);
            assert(chars@.subrange(0, i as int).push(chars@[i as int]) =~= chars@.subrange(0, i + 1));
        }
        i = i + 1;
        assert(out@ =~= start + utf8(chars@.subrange(0, i as int)));
    }
    assert(chars@.subrange(0, i as int) =~= chars@);
}

} // verus!
