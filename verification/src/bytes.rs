//! Big-endian encoding of unsigned integers.

use vstd::prelude::*;

verus! {

/// The number of values that `n` bytes can hold.
pub open spec fn pow256(n: nat) -> nat
    decreases n,
{
    if n == 0 {
        1
    } else {
        256 * pow256((n - 1) as nat)
    }
}

/// The `n` low-order bytes of `value`, most significant first.
pub open spec fn be_bytes(value: nat, n: nat) -> Seq<u8>
    decreases n,
{
    if n == 0 {
        Seq::empty()
    } else {
        be_bytes(value / 256, (n - 1) as nat).push((value % 256) as u8)
    }
}

/// The number that `bytes` spell, most significant byte first.
pub open spec fn be_value(bytes: Seq<u8>) -> nat
    decreases bytes.len(),
{
    if bytes.len() == 0 {
        0
    } else {
        be_value(bytes.drop_last()) * 256 + bytes.last() as nat
    }
}

/// Encoding with `n` bytes gives `n` bytes.
pub proof fn be_bytes_length(value: nat, n: nat)
    ensures
        be_bytes(value, n).len() == n,
    decreases n,
{
    if n > 0 {
        be_bytes_length(value / 256, (n - 1) as nat);
    }
}

/// Decoding gives back every number that fits in the bytes it was encoded with.
pub proof fn be_decode_inverts_encode(value: nat, n: nat)
    requires
        value < pow256(n),
    ensures
        be_value(be_bytes(value, n)) == value,
    decreases n,
{
    if n > 0 {
        be_decode_inverts_encode(value / 256, (n - 1) as nat);
        let bytes = be_bytes(value, n);
        assert(bytes.drop_last() =~= be_bytes(value / 256, (n - 1) as nat));
    }
}

/// Encoding gives back every byte string from the number it spells.
pub proof fn be_encode_inverts_decode(bytes: Seq<u8>)
    ensures
        be_bytes(be_value(bytes), bytes.len()) == bytes,
        be_value(bytes) < pow256(bytes.len()),
    decreases bytes.len(),
{
    if bytes.len() > 0 {
        be_encode_inverts_decode(bytes.drop_last());
        assert(bytes.drop_last().push(bytes.last()) =~= bytes);
    }
}

/// What four and eight bytes can hold.
pub proof fn pow256_values()
    ensures
        pow256(4) == 0x1_0000_0000,
        pow256(8) == 0x1_0000_0000_0000_0000,
        forall|n: nat| n <= 8 ==> #[trigger] pow256(n) <= 0x1_0000_0000_0000_0000,
{
    reveal_with_fuel(pow256, 9);
    assert forall|n: nat| n <= 8 implies #[trigger] pow256(n) <= 0x1_0000_0000_0000_0000 by {
        assert(n == 0 || n == 1 || n == 2 || n == 3 || n == 4 || n == 5 || n == 6 || n == 7 || n == 8);
    }
}

/// Every `u32` fits in four bytes and every `u64` in eight.
pub proof fn integers_fit(a: u32, b: u64)
    ensures
        a < pow256(4),
        b < pow256(8),
{
    pow256_values();
}

/// Encodes the `n` low-order bytes of `value`, most significant first.
pub fn encode_be(value: u64, n: usize) -> (bytes: Vec<u8>)
    ensures
        bytes@ == be_bytes(value as nat, n as nat),
    decreases n,
{
    if n == 0 {
        return Vec::new();
    }
    let mut bytes = encode_be(value / 256, n - 1);
    bytes.push((value % 256) as u8);
    bytes
}

/// Decodes the bytes of `bytes` from `start` up to `end`.
pub fn decode_be(bytes: &[u8], start: usize, end: usize) -> (value: u64)
    requires
        start <= end <= bytes@.len(),
        end - start <= 8,
    ensures
        value == be_value(bytes@.subrange(start as int, end as int)),
{
    let mut value: u64 = 0;
    let mut i: usize = start;
    while i < end
        invariant
            start <= i <= end <= bytes@.len(),
            end - start <= 8,
            value == be_value(bytes@.subrange(start as int, i as int)),
        decreases end - i,
    {
        proof {
            let read = bytes@.subrange(start as int, i + 1);
            assert(read.drop_last() =~= bytes@.subrange(start as int, i as int));
            be_encode_inverts_decode(read);
            pow256_values();
        }
        value = value * 256 + bytes[i] as u64;
        i = i + 1;
    }
    value
}

} // verus!
