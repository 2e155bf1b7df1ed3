//! Little-endian integers as byte sequences.

use vstd::prelude::*;

verus! {

/// The `width` low bytes of `value`, least significant first.
pub open spec fn le_bytes(value: nat, width: nat) -> Seq<u8>
    decreases width,
{
    if width == 0 {
        Seq::empty()
    } else {
        seq![(value % 256) as u8] + le_bytes(value / 256, (width - 1) as nat)
    }
}

/// The number that `bytes` denote, least significant byte first.
pub open spec fn le_value(bytes: Seq<u8>) -> nat
    decreases bytes.len(),
{
    if bytes.len() == 0 {
        0
    } else {
        bytes[0] as nat + 256 * le_value(bytes.drop_first())
    }
}

/// 256 to the power `width`: the count of values that fit in `width` bytes.
pub open spec fn le_limit(width: nat) -> nat
    decreases width,
{
    if width == 0 {
        1
    } else {
        256 * le_limit((width - 1) as nat)
    }
}

pub proof fn lemma_le_limits()
    ensures
        le_limit(1) == 0x100,
        le_limit(2) == 0x1_0000,
        le_limit(4) == 0x1_0000_0000,
        le_limit(8) == 0x1_0000_0000_0000_0000,
{
    reveal_with_fuel(le_limit, 9);
}

pub proof fn lemma_le_bytes_len(value: nat, width: nat)
    ensures
        le_bytes(value, width).len() == width,
    decreases width,
{
    if width > 0 {
        lemma_le_bytes_len(value / 256, (width - 1) as nat);
    }
}

/// Writing a number and reading it back yields the number.
pub proof fn lemma_le_value_of_bytes(value: nat, width: nat)
    requires
        value < le_limit(width),
    ensures
        le_value(le_bytes(value, width)) == value,
    decreases width,
{
    if width > 0 {
        let rest = le_bytes(value / 256, (width - 1) as nat);
        lemma_le_value_of_bytes(value / 256, (width - 1) as nat);
        assert(le_bytes(value, width).drop_first() =~= rest);
    }
}

/// Reading a number and writing it back yields the same bytes.
pub proof fn lemma_le_bytes_of_value(bytes: Seq<u8>)
    ensures
        le_bytes(le_value(bytes), bytes.len()) == bytes,
        le_value(bytes) < le_limit(bytes.len()),
    decreases bytes.len(),
{
    if bytes.len() > 0 {
        lemma_le_bytes_of_value(bytes.drop_first());
        assert(le_bytes(le_value(bytes), bytes.len()) =~= bytes);
    }
}

fn push_le(out: &mut Vec<u8>, value: u64, width: usize)
    ensures
        final(out)@ == old(out)@ + le_bytes(value as nat, width as nat),
{
    let mut rest: u64 = value;
    let mut done: usize = 0;
    let ghost start = out@;
    while done < width
        invariant
            done <= width,
            out@ + le_bytes(rest as nat, (width - done) as nat) == start + le_bytes(
                value as nat,
                width as nat,
            ),
        decreases width - done,
    {
        let ghost before = out@;
        let ghost tail = le_bytes((rest / 256) as nat, (width - done - 1) as nat);
        out.push((rest % 256) as u8);
        assert(out@ + tail =~= before + le_bytes(rest as nat, (width - done) as nat));
        rest = rest / 256;
        done = done + 1;
    }
    assert(out@ =~= out@ + le_bytes(rest as nat, 0));
}

/// Appends one byte pair, least significant byte first.
pub fn push_u16(out: &mut Vec<u8>, value: u16)
    ensures
        final(out)@ == old(out)@ + le_bytes(value as nat, 2),
{
    push_le(out, value as u64, 2);
}

/// Appends four bytes, least significant byte first.
pub fn push_u32(out: &mut Vec<u8>, value: u32)
    ensures
        final(out)@ == old(out)@ + le_bytes(value as nat, 4),
{
    push_le(out, value as u64, 4);
}

/// Appends eight bytes, least significant byte first.
pub fn push_u64(out: &mut Vec<u8>, value: u64)
    ensures
        final(out)@ == old(out)@ + le_bytes(value as nat, 8),
{
    push_le(out, value, 8);
}

/// Appends all of `bytes`.
pub fn push_all(out: &mut Vec<u8>, bytes: &[u8])
    ensures
        final(out)@ == old(out)@ + bytes@,
{
    out.extend_from_slice(bytes);
    assert(out@ =~= old(out)@ + bytes@);
}

fn patch_le(out: &mut Vec<u8>, at: usize, value: u64, width: usize)
    requires
        at + width <= old(out)@.len(),
    ensures
        final(out)@ == old(out)@.take(at as int) + le_bytes(value as nat, width as nat)
            + old(out)@.skip(at + width),
{
    let mut rest: u64 = value;
    let mut done: usize = 0;
    let ghost start = out@;
    let total: usize = out.len();
    let ghost target = start.take(at as int) + le_bytes(value as nat, width as nat) + start.skip(
        at + width,
    );
    assert(out@.take(at as int) + le_bytes(value as nat, width as nat) + start.skip(at + width)
        =~= target);
    while done < width
        invariant
            done <= width,
            at + width <= total,
            out@.len() == total,
            start.len() == total,
            out@.skip(at + width) == start.skip(at + width),
            out@.take(at + done) + le_bytes(rest as nat, (width - done) as nat) + start.skip(
                at + width,
            ) == target,
        decreases width - done,
    {
        let ghost before = out@;
        let ghost tail = le_bytes((rest / 256) as nat, (width - done - 1) as nat);
        out.set(at + done, (rest % 256) as u8);
        assert(out@.skip(at + width) =~= before.skip(at + width));
        assert(out@.take(at + done + 1) =~= before.take(at + done) + seq![(rest % 256) as u8]);
        assert(out@.take(at + done + 1) + tail + start.skip(at + width) =~= before.take(at + done)
            + le_bytes(rest as nat, (width - done) as nat) + start.skip(at + width));
        rest = rest / 256;
        done = done + 1;
    }
    assert(out@ =~= out@.take(at + width) + le_bytes(rest as nat, 0) + out@.skip(at + width));
}

/// Overwrites two bytes at `at`, least significant byte first.
pub fn patch_u16(out: &mut Vec<u8>, at: usize, value: u16)
    requires
        at + 2 <= old(out)@.len(),
    ensures
        final(out)@ == old(out)@.take(at as int) + le_bytes(value as nat, 2) + old(out)@.skip(
            at + 2,
        ),
{
    patch_le(out, at, value as u64, 2);
}

/// Overwrites four bytes at `at`, least significant byte first.
pub fn patch_u32(out: &mut Vec<u8>, at: usize, value: u32)
    requires
        at + 4 <= old(out)@.len(),
    ensures
        final(out)@ == old(out)@.take(at as int) + le_bytes(value as nat, 4) + old(out)@.skip(
            at + 4,
        ),
{
    patch_le(out, at, value as u64, 4);
}

/// Reads the `width` bytes at `offset` as a number, least significant byte first.
pub fn read_le(input: &[u8], offset: usize, width: usize) -> (value: u64)
    requires
        width <= 8,
        offset + width <= input@.len(),
    ensures
        value == le_value(input@.subrange(offset as int, offset + width)),
        value < le_limit(width as nat),
{
    let total: usize = input.len();
    let mut value: u64 = 0;
    let mut left: usize = width;
    assert(input@.subrange(offset + width, offset + width) =~= Seq::<u8>::empty());
    while left > 0
        invariant
            left <= width <= 8,
            offset + width <= total == input@.len(),
            value == le_value(input@.subrange(offset + left, offset + width)),
            value < le_limit((width - left) as nat),
        decreases left,
    {
        left = left - 1;
        let ghost tail = input@.subrange(offset + left, offset + width);
        proof {
            assert(tail.drop_first() =~= input@.subrange(offset + left + 1, offset + width));
            lemma_le_limit_monotonic((width - left) as nat, 8);
            lemma_le_limits();
            lemma_le_bytes_of_value(tail);
        }
        value = value * 256 + input[offset + left] as u64;
    }
    value
}

proof fn lemma_le_limit_monotonic(small: nat, large: nat)
    requires
        small <= large,
    ensures
        le_limit(small) <= le_limit(large),
    decreases large,
{
    if small < large {
        lemma_le_limit_monotonic(small, (large - 1) as nat);
    }
}

} // verus!
