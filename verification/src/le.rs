//! Little-endian integers on byte sequences.

use vstd::prelude::*;

verus! {

/// 256 to the power `n`.
pub open spec fn pow256(n: nat) -> nat
    decreases n,
{
    if n == 0 {
        1
    } else {
        256 * pow256((n - 1) as nat)
    }
}

/// The number that `bytes` spells, least significant byte first.
pub open spec fn le_value(bytes: Seq<u8>) -> nat
    decreases bytes.len(),
{
    if bytes.len() == 0 {
        0
    } else {
        bytes[0] as nat + 256 * le_value(bytes.drop_first())
    }
}

/// The `width` low-order bytes of `value`, least significant byte first.
pub open spec fn le_bytes(value: nat, width: nat) -> Seq<u8>
    decreases width,
{
    if width == 0 {
        Seq::empty()
    } else {
        seq![(value % 256) as u8] + le_bytes(value / 256, (width - 1) as nat)
    }
}

/// `whole` with the bytes from `at` on overwritten by `part`.
pub open spec fn splice(whole: Seq<u8>, at: int, part: Seq<u8>) -> Seq<u8> {
    whole.subrange(0, at) + part + whole.subrange(at + part.len(), whole.len() as int)
}

/// The powers of 256 that fit the integer widths in use.
pub proof fn lemma_pow256_values()
    ensures
        pow256(0) == 1,
        pow256(1) == 0x100,
        pow256(2) == 0x1_0000,
        pow256(3) == 0x100_0000,
        pow256(4) == 0x1_0000_0000,
        pow256(5) == 0x100_0000_0000,
        pow256(6) == 0x1_0000_0000_0000,
        pow256(7) == 0x100_0000_0000_0000,
        pow256(8) == 0x1_0000_0000_0000_0000,
{
    reveal_with_fuel(pow256, 9);
}

/// An encoding is as long as the width asked for.
pub proof fn lemma_le_bytes_len(value: nat, width: nat)
    ensures
        le_bytes(value, width).len() == width,
    decreases width,
{
    if width > 0 {
        lemma_le_bytes_len(value / 256, (width - 1) as nat);
    }
}

/// `n` bytes spell a number below 256 to the `n`.
pub proof fn lemma_le_value_bound(bytes: Seq<u8>)
    ensures
        le_value(bytes) < pow256(bytes.len()),
    decreases bytes.len(),
{
    if bytes.len() > 0 {
        lemma_le_value_bound(bytes.drop_first());
    }
}

/// Decoding the encoding of a number that fits the width gives the number.
pub proof fn lemma_le_value_of_le_bytes(value: nat, width: nat)
    requires
        value < pow256(width),
    ensures
        le_value(le_bytes(value, width)) == value,
    decreases width,
{
    if width > 0 {
        let rest = le_bytes(value / 256, (width - 1) as nat);
        lemma_le_value_of_le_bytes(value / 256, (width - 1) as nat);
        assert(le_bytes(value, width).drop_first() =~= rest);
    }
}

/// Encoding the number that some bytes spell, at their own width, gives the
/// bytes.
pub proof fn lemma_le_bytes_of_le_value(bytes: Seq<u8>)
    ensures
        le_bytes(le_value(bytes), bytes.len()) == bytes,
    decreases bytes.len(),
{
    if bytes.len() > 0 {
        lemma_le_bytes_of_le_value(bytes.drop_first());
        assert(le_bytes(le_value(bytes), bytes.len()) =~= bytes);
    }
}

/// Reads `width` bytes of `input` from `at` on as a little-endian number.
pub fn read_le(input: &[u8], at: usize, width: usize) -> (value: u64)
    requires
        width <= 8,
        at + width <= input@.len(),
    ensures
        value == le_value(input@.subrange(at as int, at + width)),
{
    let mut value: u64 = 0;
    let mut i: usize = width;
    while i > 0
        invariant
            i <= width <= 8,
            at + width <= input.len(),
            value == le_value(input@.subrange(at + i, at + width)),
            value < pow256((width - i) as nat),
        decreases i,
    {
        i -= 1;
        proof {
            lemma_pow256_values();
            let tail = input@.subrange(at + i, at + width);
            assert(tail.drop_first() =~= input@.subrange(at + i + 1, at + width));
        }
        value = value * 256 + input[at + i] as u64;
    }
    value
}

/// Reads the four bytes of `input` from `at` on as a little-endian number.
pub fn read_u32(input: &[u8], at: usize) -> (value: u32)
    requires
        at + 4 <= input@.len(),
    ensures
        value == le_value(input@.subrange(at as int, at + 4)),
{
    proof {
        lemma_pow256_values();
        lemma_le_value_bound(input@.subrange(at as int, at + 4));
    }
    read_le(input, at, 4) as u32
}

/// Reads the eight bytes of `input` from `at` on as a little-endian number.
pub fn read_u64(input: &[u8], at: usize) -> (value: u64)
    requires
        at + 8 <= input@.len(),
    ensures
        value == le_value(input@.subrange(at as int, at + 8)),
{
    read_le(input, at, 8)
}

/// Overwrites `width` bytes of `output` from `at` on with the little-endian
/// encoding of `value`.
pub fn write_le(output: &mut [u8], at: usize, width: usize, value: u64)
    requires
        width <= 8,
        at + width <= old(output)@.len(),
    ensures
        final(output)@ == splice(old(output)@, at as int, le_bytes(value as nat, width as nat)),
{
    let mut rest: u64 = value;
    let mut i: usize = 0;
    while i < width
        invariant
            i <= width <= 8,
            at + width <= output.len(),
            output@.len() == old(output)@.len(),
            output@.subrange(0, at as int) == old(output)@.subrange(0, at as int),
            output@.subrange(at + i, output@.len() as int) == old(output)@.subrange(
                at + i,
                output@.len() as int,
            ),
            le_bytes(value as nat, width as nat) == output@.subrange(at as int, at + i) + le_bytes(
                rest as nat,
                (width - i) as nat,
            ),
        decreases width - i,
    {
        let ghost before = output@;
        output[at + i] = (rest % 256) as u8;
        proof {
            assert(output@.subrange(0, at as int) =~= before.subrange(0, at as int));
            assert(output@.subrange(at + i + 1, output@.len() as int) =~= before.subrange(
                at + i,
                before.len() as int,
            ).drop_first());
            assert(old(output)@.subrange(at + i + 1, output@.len() as int) =~= old(
                output,
            )@.subrange(at + i, before.len() as int).drop_first());
            assert(output@.subrange(at as int, at + i + 1) =~= before.subrange(at as int, at + i)
                + seq![(rest % 256) as u8]);
        }
        rest = rest / 256;
        i += 1;
    }
    proof {
        lemma_le_bytes_len(value as nat, width as nat);
        assert(output@ =~= splice(old(output)@, at as int, le_bytes(value as nat, width as nat)));
    }
}

/// Copies the 32 bytes of `input` from `at` on.
pub fn read_id(input: &[u8], at: usize) -> (id: [u8; 32])
    requires
        at + 32 <= input@.len(),
    ensures
        id@ == input@.subrange(at as int, at + 32),
{
    let mut id = [0u8; 32];
    let mut i: usize = 0;
    while i < 32
        invariant
            i <= 32,
            at + 32 <= input.len(),
            forall|j: int| 0 <= j < i ==> id@[j] == input@[at + j],
        decreases 32 - i,
    {
        id[i] = input[at + i];
        i += 1;
    }
    assert(id@ =~= input@.subrange(at as int, at + 32));
    id
}

/// Overwrites 32 bytes of `output` from `at` on with `id`.
pub fn write_id(output: &mut [u8], at: usize, id: &[u8; 32])
    requires
        at + 32 <= old(output)@.len(),
    ensures
        final(output)@ == splice(old(output)@, at as int, id@),
{
    let mut i: usize = 0;
    while i < 32
        invariant
            i <= 32,
            at + 32 <= output.len(),
            output@.len() == old(output)@.len(),
            forall|j: int| 0 <= j < at || at + i <= j < output@.len() ==> output@[j] == old(output)@[j],
            forall|j: int| 0 <= j < i ==> output@[at + j] == id@[j],
        decreases 32 - i,
    {
        output[at + i] = id[i];
        i += 1;
    }
    assert(output@ =~= splice(old(output)@, at as int, id@));
}

/// Appends `bytes` to `writer`.
pub fn append(writer: &mut Vec<u8>, bytes: &[u8])
    ensures
        final(writer)@ == old(writer)@ + bytes@,
{
    let mut i: usize = 0;
    while i < bytes.len()
        invariant
            i <= bytes.len(),
            writer@ == old(writer)@ + bytes@.subrange(0, i as int),
        decreases bytes.len() - i,
    {
        writer.push(bytes[i]);
        i += 1;
        assert(writer@ =~= old(writer)@ + bytes@.subrange(0, i as int));
    }
    assert(bytes@.subrange(0, i as int) =~= bytes@);
}

/// Appends the `width`-byte little-endian encoding of `value` to `writer`.
pub fn append_le(writer: &mut Vec<u8>, width: usize, value: u64)
    requires
        width <= 8,
    ensures
        final(writer)@ == old(writer)@ + le_bytes(value as nat, width as nat),
{
    let mut image = [0u8; 8];
    write_le(&mut image, 0, width, value);
    proof {
        lemma_le_bytes_len(value as nat, width as nat);
        assert(image@.subrange(0, width as int) =~= le_bytes(value as nat, width as nat));
    }
    append(writer, vstd::slice::slice_subrange(&image, 0, width));
}

} // verus!
