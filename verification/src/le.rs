//! Little-endian words.
use vstd::arithmetic::power::pow;
use vstd::prelude::*;

verus! {

/// The number that a string of bytes denotes, the least significant byte first.
pub open spec fn le_value(bytes: Seq<u8>) -> nat
    decreases bytes.len(),
{
    if bytes.len() == 0 {
        0
    } else {
        bytes[0] as nat + 256 * le_value(bytes.drop_first())
    }
}

/// The `width` lowest bytes of a number, the least significant first.
pub open spec fn le_bytes(value: nat, width: nat) -> Seq<u8>
    decreases width,
{
    if width == 0 {
        Seq::empty()
    } else {
        seq![(value % 256) as u8] + le_bytes(value / 256, (width - 1) as nat)
    }
}

pub proof fn lemma_le_bytes_len(value: nat, width: nat)
    ensures
        le_bytes(value, width).len() == width,
    decreases width,
{
    if width > 0 {
        lemma_le_bytes_len(value / 256, (width - 1) as nat);
    }
}

/// A string of bytes denotes a number that needs no more bytes than it has.
pub proof fn lemma_le_value_bound(bytes: Seq<u8>)
    ensures
        le_value(bytes) < pow(256, bytes.len()),
    decreases bytes.len(),
{
    reveal(pow);
    if bytes.len() > 0 {
        lemma_le_value_bound(bytes.drop_first());
    }
}

/// Reading back what was written gives the number, as long as it fits.
pub proof fn lemma_le_value_of_bytes(value: nat, width: nat)
    requires
        value < pow(256, width),
    ensures
        le_value(le_bytes(value, width)) == value,
    decreases width,
{
    reveal(pow);
    if width > 0 {
        let rest = le_bytes(value / 256, (width - 1) as nat);
        lemma_le_value_of_bytes(value / 256, (width - 1) as nat);
        assert(le_bytes(value, width).drop_first() =~= rest);
    }
}

/// Writing what was read gives the same bytes.
pub proof fn lemma_le_bytes_of_value(bytes: Seq<u8>)
    ensures
        le_bytes(le_value(bytes), bytes.len()) == bytes,
    decreases bytes.len(),
{
    if bytes.len() > 0 {
        lemma_le_bytes_of_value(bytes.drop_first());
        assert(seq![bytes[0]] + bytes.drop_first() =~= bytes);
    } else {
        assert(bytes =~= Seq::empty());
    }
}

pub proof fn lemma_pow256()
    ensures
        pow(256, 1) == 0x100,
        pow(256, 2) == 0x1_0000,
        pow(256, 4) == 0x1_0000_0000,
        pow(256, 8) == 0x1_0000_0000_0000_0000,
{
    reveal(pow);
    reveal_with_fuel(pow, 9);
}

/// Writes the `width` lowest bytes of `value` into `buf` from position `at` on.
pub fn put_le(buf: &mut [u8], at: usize, value: u64, width: usize)
    requires
        at + width <= old(buf)@.len(),
    ensures
        final(buf)@ == old(buf)@.take(at as int) + le_bytes(value as nat, width as nat) + old(
            buf,
        )@.skip(at + width),
{
    let ghost before = buf@;
    let mut rest: u64 = value;
    let mut i: usize = 0;
    let len: usize = buf.len();
    proof {
        lemma_le_bytes_len(value as nat, width as nat);
    }
    while i < width
        invariant
            i <= width,
            before.len() == len,
            at + width <= before.len(),
            buf@.len() == before.len(),
            buf@.take(at as int) == before.take(at as int),
            buf@.skip(at + i) == before.skip(at + i),
            le_bytes(value as nat, width as nat).len() == width,
            buf@.subrange(at as int, at + i) + le_bytes(rest as nat, (width - i) as nat)
                == le_bytes(value as nat, width as nat),
        decreases width - i,
    {
        let ghost prior = buf@;
        let ghost old_rest = rest as nat;
        buf[at + i] = (rest % 256) as u8;
        rest = rest / 256;
        proof {
            lemma_le_bytes_len(rest as nat, (width - i - 1) as nat);
            assert(buf@.subrange(at as int, at + i + 1) =~= prior.subrange(at as int, at + i).push(
                (old_rest % 256) as u8,
            ));
            assert(buf@.subrange(at as int, at + i + 1) + le_bytes(
                rest as nat,
                (width - i - 1) as nat,
            ) =~= prior.subrange(at as int, at + i) + le_bytes(old_rest, (width - i) as nat));
            assert(buf@.take(at as int) =~= prior.take(at as int));
            assert(buf@.skip(at + i + 1) =~= prior.skip(at + i).drop_first());
            assert(before.skip(at + i + 1) =~= before.skip(at + i).drop_first());
        }
        i = i + 1;
    }
    proof {
        assert(le_bytes(rest as nat, 0) =~= Seq::empty());
        assert(buf@.subrange(at as int, at + width) =~= le_bytes(value as nat, width as nat));
        assert(buf@ =~= buf@.take(at as int) + buf@.subrange(at as int, at + width) + buf@.skip(
            at + width,
        ));
    }
}

/// The number written in the `width` bytes of `buf` from position `at` on.
pub fn get_le(buf: &[u8], at: usize, width: usize) -> (value: u64)
    requires
        width <= 8,
        at + width <= buf@.len(),
    ensures
        value == le_value(buf@.subrange(at as int, at + width)),
{
    let mut value: u64 = 0;
    let mut i: usize = width;
    let len: usize = buf.len();
    while i > 0
        invariant
            buf@.len() == len,
            i <= width <= 8,
            at + width <= buf@.len(),
            value == le_value(buf@.subrange(at + i, at + width)),
        decreases i,
    {
        i = i - 1;
        proof {
            let tail = buf@.subrange(at + i + 1, at + width);
            let now = buf@.subrange(at + i, at + width);
            assert(now.drop_first() =~= tail);
            lemma_le_value_bound(now);
            lemma_pow256();
            vstd::arithmetic::power::lemma_pow_increases(256, now.len(), 8);
        }
        value = buf[at + i] as u64 + 256 * value;
    }
    value
}

/// Byte `i` of a little-endian number is its digit to the base 256 that counts `256^i`.
pub proof fn law_le_bytes_are_digits(value: nat, width: nat, i: int)
    requires
        0 <= i < width,
    ensures
        le_bytes(value, width).len() == width,
        le_bytes(value, width)[i] as int == value as int / pow(256, i as nat) % 256,
    decreases width,
{
    reveal(pow);
    lemma_le_bytes_len(value, width);
    if i > 0 {
        law_le_bytes_are_digits(value / 256, (width - 1) as nat, i - 1);
        vstd::arithmetic::power::lemma_pow_positive(256, (i - 1) as nat);
        vstd::arithmetic::div_mod::lemma_div_denominator(
            value as int,
            256,
            pow(256, (i - 1) as nat),
        );
    } else {
        assert(value as int / 1 == value) by (nonlinear_arith);
    }
}

/// What two bytes denote, and what four and eight do.
pub proof fn law_le_values(bytes: Seq<u8>)
    ensures
        bytes.len() == 2 ==> le_value(bytes) == bytes[0] + 0x100 * bytes[1],
        bytes.len() == 4 ==> le_value(bytes) == bytes[0] + 0x100 * bytes[1] + 0x1_0000 * bytes[2]
            + 0x100_0000 * bytes[3],
        bytes.len() == 8 ==> le_value(bytes) == bytes[0] + 0x100 * bytes[1] + 0x1_0000 * bytes[2]
            + 0x100_0000 * bytes[3] + 0x1_0000_0000 * bytes[4] + 0x100_0000_0000 * bytes[5]
            + 0x1_0000_0000_0000 * bytes[6] + 0x100_0000_0000_0000 * bytes[7],
{
    reveal_with_fuel(le_value, 9);
}

} // verus!
