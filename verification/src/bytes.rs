//! Numbers as bytes, most significant byte first.
use byteorder::{BigEndian, ByteOrder};
use vstd::prelude::*;

verus! {

/// The number that `s` spells, most significant byte first.
pub open spec fn be_value(s: Seq<u8>) -> nat
    decreases s.len(),
{
    if s.len() == 0 {
        0
    } else {
        be_value(s.drop_last()) * 256 + s.last() as nat
    }
}

/// The low `width` bytes of `n`, most significant byte first.
pub open spec fn be_bytes(n: nat, width: nat) -> Seq<u8>
    decreases width,
{
    if width == 0 {
        Seq::empty()
    } else {
        be_bytes(n / 256, (width - 1) as nat).push((n % 256) as u8)
    }
}

/// How many numbers fit in `width` bytes.
pub open spec fn byte_range(width: nat) -> nat
    decreases width,
{
    if width == 0 {
        1
    } else {
        256 * byte_range((width - 1) as nat)
    }
}

/// `width` bytes are written, whatever the number.
pub proof fn be_bytes_len(n: nat, width: nat)
    ensures
        be_bytes(n, width).len() == width,
    decreases width,
{
    if width > 0 {
        be_bytes_len(n / 256, (width - 1) as nat);
    }
}

/// A number that fits in `width` bytes is read back from the bytes it is written as.
pub proof fn be_round_trip(n: nat, width: nat)
    requires
        n < byte_range(width),
    ensures
        be_value(be_bytes(n, width)) == n,
    decreases width,
{
    if width > 0 {
        be_round_trip(n / 256, (width - 1) as nat);
        let s = be_bytes(n, width);
        assert(s.drop_last() =~= be_bytes(n / 256, (width - 1) as nat));
    }
}

/// Every `u32` fits in four bytes and every `u64` in eight.
pub proof fn machine_words_fit(a: u32, b: u64)
    ensures
        a < byte_range(4),
        b < byte_range(8),
{
    reveal_with_fuel(byte_range, 9);
}

/// `BigEndian::read_u32` of `byteorder`: the first four bytes of `buf` as a number, most
/// significant byte first. It panics on a shorter slice.
#[verifier::external_body]
pub(crate) fn read_u32(buf: &[u8]) -> (n: u32)
    requires
        buf@.len() >= 4,
    ensures
        n == be_value(buf@.take(4)),
{
    BigEndian::read_u32(buf)
}

/// `BigEndian::read_u64` of `byteorder`: the first eight bytes of `buf` as a number, most
/// significant byte first. It panics on a shorter slice.
#[verifier::external_body]
pub(crate) fn read_u64(buf: &[u8]) -> (n: u64)
    requires
        buf@.len() >= 8,
    ensures
        n == be_value(buf@.take(8)),
{
    BigEndian::read_u64(buf)
}

/// `BigEndian::write_u32` of `byteorder`: puts the four bytes of `n` at the front of `buf`, most
/// significant byte first, and leaves the rest of it alone. It panics on a shorter slice.
#[verifier::external_body]
pub(crate) fn write_u32(buf: &mut [u8], n: u32)
    requires
        old(buf)@.len() >= 4,
    ensures
        final(buf)@ == be_bytes(n as nat, 4) + old(buf)@.skip(4),
{
    BigEndian::write_u32(buf, n)
}

/// `BigEndian::write_u64` of `byteorder`: puts the eight bytes of `n` at the front of `buf`, most
/// significant byte first, and leaves the rest of it alone. It panics on a shorter slice.
#[verifier::external_body]
pub(crate) fn write_u64(buf: &mut [u8], n: u64)
    requires
        old(buf)@.len() >= 8,
    ensures
        final(buf)@ == be_bytes(n as nat, 8) + old(buf)@.skip(8),
{
    BigEndian::write_u64(buf, n)
}

/// A first byte counts as many times as the bytes behind it have values.
pub proof fn be_first_byte(b: u8, s: Seq<u8>)
    ensures
        be_value(seq![b] + s) == b * byte_range(s.len()) + be_value(s),
        be_value(s) < byte_range(s.len()),
    decreases s.len(),
{
    let both = seq![b] + s;
    if s.len() == 0 {
        assert(both.drop_last() =~= Seq::<u8>::empty());
        assert(be_value(both.drop_last()) == 0);
        assert(both.last() == b);
        assert(b * 1 == b);
    } else {
        be_first_byte(b, s.drop_last());
        assert(both.drop_last() =~= seq![b] + s.drop_last());
        let r = byte_range((s.len() - 1) as nat) as int;
        assert(b * (256 * r) == (b * r) * 256) by (nonlinear_arith);
        assert(both.last() == s.last());
    }
}

/// Bytes are written again as they were, from the number they spell.
pub proof fn be_value_spells_bytes(s: Seq<u8>)
    ensures
        be_bytes(be_value(s), s.len()) == s,
    decreases s.len(),
{
    if s.len() > 0 {
        be_value_spells_bytes(s.drop_last());
        let n = be_value(s);
        assert(n / 256 == be_value(s.drop_last()));
        assert(n % 256 == s.last());
        assert(s =~= s.drop_last().push(s.last()));
    } else {
        assert(be_bytes(be_value(s), 0) =~= s);
    }
}

} // verus!
