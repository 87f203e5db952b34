//! The byte layout of numbers and fields on the client stream.
//!
//! Numbers are written most significant byte first. A field is a byte
//! string behind its length, the length written as a number of two bytes.

use vstd::prelude::*;

verus! {

/// The number of values that `width` bytes can tell apart.
pub open spec fn span(width: nat) -> nat
    decreases width,
{
    if width == 0 {
        1
    } else {
        256 * span((width - 1) as nat)
    }
}

/// The number that `bytes` spell, most significant byte first.
pub open spec fn be_value(bytes: Seq<u8>) -> nat
    decreases bytes.len(),
{
    if bytes.len() == 0 {
        0
    } else {
        256 * be_value(bytes.drop_last()) + bytes.last() as nat
    }
}

/// `value` spelt in `width` bytes, most significant byte first. Of a value
/// that needs more bytes, the lowest `width` are written.
pub open spec fn be_bytes(value: nat, width: nat) -> Seq<u8>
    decreases width,
{
    if width == 0 {
        Seq::empty()
    } else {
        be_bytes(value / 256, (width - 1) as nat).push((value % 256) as u8)
    }
}

/// Longest byte string that a field can hold.
pub const MAX_FIELD_LEN: usize = 0xffff;

/// A field: the length of `bytes` in two bytes, then `bytes`.
pub open spec fn field(bytes: Seq<u8>) -> Seq<u8> {
    be_bytes(bytes.len(), 2) + bytes
}

/// A number spelt in `width` bytes takes `width` bytes.
pub proof fn lemma_be_bytes_len(value: nat, width: nat)
    ensures
        be_bytes(value, width).len() == width,
    decreases width,
{
    if width > 0 {
        lemma_be_bytes_len(value / 256, (width - 1) as nat);
    }
}

/// Bytes spell a number below the span of their count.
pub proof fn lemma_be_value_bound(bytes: Seq<u8>)
    ensures
        be_value(bytes) < span(bytes.len()),
    decreases bytes.len(),
{
    if bytes.len() > 0 {
        lemma_be_value_bound(bytes.drop_last());
    }
}

/// Reading back what was written gives the number that was written.
pub proof fn lemma_be_round_trip(value: nat, width: nat)
    requires
        value < span(width),
    ensures
        be_value(be_bytes(value, width)) == value,
    decreases width,
{
    if width > 0 {
        let front = be_bytes(value / 256, (width - 1) as nat);
        lemma_be_round_trip(value / 256, (width - 1) as nat);
        assert(be_bytes(value, width).drop_last() =~= front);
    }
}

/// Writing what was read gives the bytes that were read.
pub proof fn lemma_be_bytes_of_value(bytes: Seq<u8>)
    ensures
        be_bytes(be_value(bytes), bytes.len()) == bytes,
    decreases bytes.len(),
{
    if bytes.len() > 0 {
        let front = bytes.drop_last();
        lemma_be_bytes_of_value(front);
        let v = be_value(bytes);
        assert(v / 256 == be_value(front));
        assert(v % 256 == bytes.last() as nat);
        assert(be_bytes(v, bytes.len()) =~= bytes);
    } else {
        assert(be_bytes(0, 0) =~= bytes);
    }
}

/// Two bytes tell 65536 values apart, eight bytes as many as a `u64` has.
pub proof fn lemma_spans()
    ensures
        span(2) == 0x1_0000,
        span(8) == 0x1_0000_0000_0000_0000,
{
    reveal_with_fuel(span, 9);
}

/// Appends `value` in two bytes.
pub fn put_u16(out: &mut Vec<u8>, value: u16)
    ensures
        final(out)@ == old(out)@ + be_bytes(value as nat, 2),
{
    out.push((value / 256) as u8);
    out.push((value % 256) as u8);
    proof {
        reveal_with_fuel(be_bytes, 3);
        assert(be_bytes(value as nat, 2) =~= seq![(value / 256) as u8, (value % 256) as u8]);
        assert(out@ =~= old(out)@ + be_bytes(value as nat, 2));
    }
}

/// Appends `value` in eight bytes.
pub fn put_u64(out: &mut Vec<u8>, value: u64)
    ensures
        final(out)@ == old(out)@ + be_bytes(value as nat, 8),
{
    let mut digits: [u8; 8] = [0u8;8];
    let mut rest: u64 = value;
    let mut i: usize = 8;
    proof {
        lemma_be_bytes_len(value as nat, 8);
        assert(be_bytes(value as nat, 8).subrange(0, 8) =~= be_bytes(value as nat, 8));
    }
    while i > 0
        invariant
            i <= 8,
            forall|k: int| i <= k < 8 ==> 
                be_bytes(value as nat, 8)[k] == #[trigger] digits@[k],
            be_bytes(rest as nat, i as nat) =~= be_bytes(value as nat, 8).subrange(0, i as int),
        decreases i,
    {
        proof {
            lemma_be_bytes_len(rest as nat, i as nat);
            lemma_be_bytes_len(value as nat, 8);
        }
        i -= 1;
        digits[i] = (rest % 256) as u8;
        rest = rest / 256;
        proof {
            let whole = be_bytes(value as nat, 8);
            let prior = be_bytes((rest * 256 + digits@[i as int]) as nat, (i + 1) as nat);
            lemma_be_bytes_len(rest as nat, i as nat);
            assert(be_bytes(rest as nat, i as nat) =~= whole.subrange(0, i as int)) by {
                assert(prior == whole.subrange(0, i + 1));
                assert(prior.drop_last() =~= be_bytes(rest as nat, i as nat));
            }
            assert(whole[i as int] == prior.last());
        }
    }
    let mut k: usize = 0;
    while k < 8
        invariant
            k <= 8,
            out@ == old(out)@ + digits@.subrange(0, k as int),
        decreases 8 - k,
    {
        out.push(digits[k]);
        k += 1;
        assert(out@ =~= old(out)@ + digits@.subrange(0, k as int));
    }
    proof {
        lemma_be_bytes_len(value as nat, 8);
        assert(digits@.subrange(0, 8) =~= be_bytes(value as nat, 8));
    }
}

/// Reads the number that the `width` bytes from `at` spell.
pub fn read_number(bytes: &[u8], at: usize, width: usize) -> (value: u64)
    requires
        width <= 8,
        at + width <= bytes.len(),
    ensures
        value == be_value(bytes@.subrange(at as int, at + width)),
{
    let mut value: u64 = 0;
    let mut i: usize = 0;
    while i < width
        invariant
            width <= 8,
            at + width <= bytes.len(),
            i <= width,
            value == be_value(bytes@.subrange(at as int, at + i)),
        decreases width - i,
    {
        proof {
            let read = bytes@.subrange(at as int, at + i);
            lemma_be_value_bound(read);
            lemma_span_grows(i as nat, 7);
            reveal_with_fuel(span, 8);
            let next = bytes@.subrange(at as int, at + i + 1);
            assert(next.drop_last() =~= read);
        }
        value = value * 256 + bytes[at + i] as u64;
        i += 1;
    }
    value
}

/// More bytes tell more values apart.
pub proof fn lemma_span_grows(fewer: nat, more: nat)
    requires
        fewer <= more,
    ensures
        span(fewer) <= span(more),
    decreases more,
{
    if fewer < more {
        lemma_span_grows(fewer, (more - 1) as nat);
    }
}

/// Appends `bytes` as a field.
pub fn put_field(out: &mut Vec<u8>, bytes: &[u8])
    requires
        bytes.len() <= MAX_FIELD_LEN,
    ensures
        final(out)@ == old(out)@ + field(bytes@),
{
    put_u16(out, bytes.len() as u16);
    let mut i: usize = 0;
    while i < bytes.len()
        invariant
            i <= bytes.len(),
            out@ == old(out)@ + be_bytes(bytes@.len(), 2) + bytes@.subrange(0, i as int),
        decreases bytes.len() - i,
    {
        out.push(bytes[i]);
        i += 1;
        assert(out@ =~= old(out)@ + be_bytes(bytes@.len(), 2) + bytes@.subrange(0, i as int));
    }
    assert(bytes@.subrange(0, bytes.len() as int) =~= bytes@);
    assert(out@ =~= old(out)@ + field(bytes@));
}

} // verus!
