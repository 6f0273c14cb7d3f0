//! Samples and their bytes on the wire.
//!
//! A 16-bit sample is an `i16`. A 32-bit float sample is carried as its bit pattern, a `u32`:
//! nothing here computes with it.
use crate::le::{get_le, le_bytes, le_value, put_le};
use crate::le::{lemma_le_bytes_len, lemma_le_bytes_of_value, lemma_le_value_bound};
use crate::le::{law_le_values, lemma_le_value_of_bytes, lemma_pow256};
use vstd::prelude::*;

verus! {

/// The two's complement of a 16-bit sample.
pub open spec fn s16_bits(sample: i16) -> nat {
    if sample >= 0 {
        sample as nat
    } else {
        (sample + 0x1_0000) as nat
    }
}

/// The 16-bit sample with the given two's complement.
pub open spec fn s16_of_bits(bits: nat) -> i16 {
    if bits < 0x8000 {
        bits as i16
    } else {
        (bits - 0x1_0000) as i16
    }
}

/// 16-bit samples on the wire.
pub open spec fn s16_bytes(samples: Seq<i16>) -> Seq<u8> {
    Seq::new(samples.len() * 2, |k: int| le_bytes(s16_bits(samples[k / 2]), 2)[k % 2])
}

/// The 16-bit samples that a payload holds; an odd byte at its end belongs to none.
pub open spec fn s16_samples(bytes: Seq<u8>) -> Seq<i16> {
    Seq::new(
        bytes.len() / 2,
        |k: int| s16_of_bits(le_value(bytes.subrange(2 * k, 2 * k + 2))),
    )
}

/// 32-bit samples on the wire.
pub open spec fn f32_bytes(samples: Seq<u32>) -> Seq<u8> {
    Seq::new(samples.len() * 4, |k: int| le_bytes(samples[k / 4] as nat, 4)[k % 4])
}

/// The 32-bit samples that a payload holds; up to three bytes at its end belong to none.
pub open spec fn f32_samples(bytes: Seq<u8>) -> Seq<u32> {
    Seq::new(bytes.len() / 4, |k: int| le_value(bytes.subrange(4 * k, 4 * k + 4)) as u32)
}

/// Writes 16-bit samples as bytes, two for each.
pub fn s16_to_s16le(src: &[i16], dst: &mut [u8])
    requires
        old(dst)@.len() == src@.len() * 2,
    ensures
        final(dst)@ == s16_bytes(src@),
{
    let len: usize = src.len();
    let dst_len: usize = dst.len();
    let mut i: usize = 0;
    while i < len
        invariant
            i <= len == src@.len(),
            dst_len == dst@.len() == src@.len() * 2,
            forall|k: int| 0 <= k < 2 * i ==> #[trigger] dst@[k] == s16_bytes(src@)[k],
        decreases len - i,
    {
        let sample: i16 = src[i];
        let bits: u64 = if sample >= 0 {
            sample as u64
        } else {
            (sample as i32 + 0x1_0000) as u64
        };
        let ghost before = dst@;
        put_le(dst, 2 * i, bits, 2);
        proof {
            lemma_le_bytes_len(bits as nat, 2);
            assert forall|k: int| 0 <= k < 2 * (i + 1) implies #[trigger] dst@[k] == s16_bytes(
                src@,
            )[k] by {
                if k < 2 * i {
                    assert(dst@[k] == before[k]);
                } else {
                    assert(dst@[k] == le_bytes(bits as nat, 2)[k - 2 * i]);
                }
            }
        }
        i = i + 1;
    }
    assert(dst@ =~= s16_bytes(src@));
}

/// Appends the 16-bit samples that `src` holds to `dst`.
pub fn s16le_to_s16(src: &[u8], dst: &mut Vec<i16>)
    ensures
        final(dst)@ == old(dst)@ + s16_samples(src@),
{
    let len: usize = src.len();
    let count: usize = len / 2;
    let mut i: usize = 0;
    let ghost before = dst@;
    while i < count
        invariant
            src@.len() == len,
            i <= count == len / 2,
            dst@ == before + s16_samples(src@).take(i as int),
        decreases count - i,
    {
        proof {
            lemma_le_value_bound(src@.subrange(2 * i, 2 * i + 2));
            lemma_pow256();
        }
        let bits: u64 = get_le(src, 2 * i, 2);
        let sample: i16 = if bits < 0x8000 {
            bits as i16
        } else {
            (bits as i32 - 0x1_0000) as i16
        };
        dst.push(sample);
        assert(s16_samples(src@).take(i + 1) =~= s16_samples(src@).take(i as int).push(sample));
        i = i + 1;
    }
    assert(s16_samples(src@).take(count as int) =~= s16_samples(src@));
}

/// Writes 32-bit samples as bytes, four for each.
pub fn f32_to_f32le(src: &[u32], dst: &mut [u8])
    requires
        old(dst)@.len() == src@.len() * 4,
    ensures
        final(dst)@ == f32_bytes(src@),
{
    let len: usize = src.len();
    let dst_len: usize = dst.len();
    let mut i: usize = 0;
    while i < len
        invariant
            i <= len == src@.len(),
            dst_len == dst@.len() == src@.len() * 4,
            forall|k: int| 0 <= k < 4 * i ==> #[trigger] dst@[k] == f32_bytes(src@)[k],
        decreases len - i,
    {
        let bits: u64 = src[i] as u64;
        let ghost before = dst@;
        put_le(dst, 4 * i, bits, 4);
        proof {
            lemma_le_bytes_len(bits as nat, 4);
            assert forall|k: int| 0 <= k < 4 * (i + 1) implies #[trigger] dst@[k] == f32_bytes(
                src@,
            )[k] by {
                if k < 4 * i {
                    assert(dst@[k] == before[k]);
                } else {
                    assert(dst@[k] == le_bytes(bits as nat, 4)[k - 4 * i]);
                }
            }
        }
        i = i + 1;
    }
    assert(dst@ =~= f32_bytes(src@));
}

/// Appends the 32-bit samples that `src` holds to `dst`.
pub fn f32le_to_f32(src: &[u8], dst: &mut Vec<u32>)
    ensures
        final(dst)@ == old(dst)@ + f32_samples(src@),
{
    let len: usize = src.len();
    let count: usize = len / 4;
    let mut i: usize = 0;
    let ghost before = dst@;
    while i < count
        invariant
            src@.len() == len,
            i <= count == len / 4,
            dst@ == before + f32_samples(src@).take(i as int),
        decreases count - i,
    {
        proof {
            lemma_le_value_bound(src@.subrange(4 * i, 4 * i + 4));
            lemma_pow256();
        }
        let sample: u32 = get_le(src, 4 * i, 4) as u32;
        dst.push(sample);
        assert(f32_samples(src@).take(i + 1) =~= f32_samples(src@).take(i as int).push(sample));
        i = i + 1;
    }
    assert(f32_samples(src@).take(count as int) =~= f32_samples(src@));
}

/// 16-bit samples come back from the wire as they went.
pub proof fn law_s16_round_trip(samples: Seq<i16>)
    ensures
        s16_samples(s16_bytes(samples)) == samples,
{
    let bytes = s16_bytes(samples);
    assert forall|k: int| 0 <= k < samples.len() implies s16_samples(bytes)[k] == samples[k] by {
        let word = bytes.subrange(2 * k, 2 * k + 2);
        let bits = s16_bits(samples[k]);
        lemma_le_bytes_len(bits, 2);
        lemma_pow256();
        lemma_le_value_of_bytes(bits, 2);
        assert(word =~= le_bytes(bits, 2));
    }
    assert(s16_samples(bytes) =~= samples);
}

/// 32-bit samples come back from the wire bit for bit.
pub proof fn law_f32_round_trip(samples: Seq<u32>)
    ensures
        f32_samples(f32_bytes(samples)) == samples,
{
    let bytes = f32_bytes(samples);
    assert forall|k: int| 0 <= k < samples.len() implies f32_samples(bytes)[k] == samples[k] by {
        let word = bytes.subrange(4 * k, 4 * k + 4);
        let bits = samples[k] as nat;
        lemma_le_bytes_len(bits, 4);
        lemma_pow256();
        lemma_le_value_of_bytes(bits, 4);
        assert(word =~= le_bytes(bits, 4));
    }
    assert(f32_samples(bytes) =~= samples);
}

/// What is read from a payload of whole 16-bit samples says everything that was in it.
pub proof fn law_s16_payload_round_trip(bytes: Seq<u8>)
    requires
        bytes.len() % 2 == 0,
    ensures
        s16_bytes(s16_samples(bytes)) == bytes,
{
    assert forall|k: int| 0 <= k < bytes.len() implies s16_bytes(s16_samples(bytes))[k]
        == bytes[k] by {
        let word = bytes.subrange(2 * (k / 2), 2 * (k / 2) + 2);
        lemma_le_value_bound(word);
        lemma_pow256();
        lemma_le_bytes_of_value(word);
        assert(word[k % 2] == bytes[k]);
    }
    assert(s16_bytes(s16_samples(bytes)) =~= bytes);
}

/// What is read from a payload of whole 32-bit samples says everything that was in it.
pub proof fn law_f32_payload_round_trip(bytes: Seq<u8>)
    requires
        bytes.len() % 4 == 0,
    ensures
        f32_bytes(f32_samples(bytes)) == bytes,
{
    assert forall|k: int| 0 <= k < bytes.len() implies f32_bytes(f32_samples(bytes))[k]
        == bytes[k] by {
        let word = bytes.subrange(4 * (k / 4), 4 * (k / 4) + 4);
        lemma_le_value_bound(word);
        lemma_pow256();
        lemma_le_bytes_of_value(word);
        assert(word[k % 4] == bytes[k]);
    }
    assert(f32_bytes(f32_samples(bytes)) =~= bytes);
}

/// Where a 16-bit sample stands on the wire: two bytes for each, the low one first, negative ones
/// in two's complement. All samples are there, and nothing else.
pub proof fn law_s16_layout(samples: Seq<i16>, k: int)
    ensures
        s16_bytes(samples).len() == 2 * samples.len(),
        0 <= k < samples.len() ==> s16_bytes(samples)[2 * k] + 0x100 * s16_bytes(samples)[2 * k + 1] == (if samples[k] < 0 {
            samples[k] + 0x1_0000
        } else {
            samples[k] as int
        }),
{
    if 0 <= k < samples.len() {
        let bits = s16_bits(samples[k]);
        lemma_le_bytes_len(bits, 2);
        lemma_pow256();
        lemma_le_value_of_bytes(bits, 2);
        law_le_values(le_bytes(bits, 2));
        assert(s16_bytes(samples)[2 * k] == le_bytes(bits, 2)[0]);
        assert(s16_bytes(samples)[2 * k + 1] == le_bytes(bits, 2)[1]);
    }
}

/// What is read from a payload of 16-bit samples: one for every two bytes.
pub proof fn law_s16_reading(bytes: Seq<u8>, k: int)
    ensures
        s16_samples(bytes).len() == bytes.len() / 2,
        0 <= k < bytes.len() / 2 ==> ({
            let bits = bytes[2 * k] + 0x100 * bytes[2 * k + 1];
            s16_samples(bytes)[k] == (if bits >= 0x8000 {
                bits - 0x1_0000
            } else {
                bits
            })
        }),
{
    law_le_values(bytes.subrange(2 * k, 2 * k + 2));
}

/// Where a 32-bit sample stands on the wire: four bytes for each, the lowest one first. All samples
/// are there, and nothing else.
pub proof fn law_f32_layout(samples: Seq<u32>, k: int)
    ensures
        ({
            let bytes = f32_bytes(samples);
            &&& bytes.len() == 4 * samples.len()
            &&& 0 <= k < samples.len() ==> bytes[4 * k] + 0x100 * bytes[4 * k + 1] + 0x1_0000
                * bytes[4 * k + 2] + 0x100_0000 * bytes[4 * k + 3] == samples[k]
        }),
{
    if 0 <= k < samples.len() {
        let bits = samples[k] as nat;
        lemma_le_bytes_len(bits, 4);
        lemma_pow256();
        lemma_le_value_of_bytes(bits, 4);
        law_le_values(le_bytes(bits, 4));
        let bytes = f32_bytes(samples);
        assert(bytes[4 * k] == le_bytes(bits, 4)[0]);
        assert(bytes[4 * k + 1] == le_bytes(bits, 4)[1]);
        assert(bytes[4 * k + 2] == le_bytes(bits, 4)[2]);
        assert(bytes[4 * k + 3] == le_bytes(bits, 4)[3]);
    }
}

/// What is read from a payload of 32-bit samples: one for every four bytes.
pub proof fn law_f32_reading(bytes: Seq<u8>, k: int)
    ensures
        f32_samples(bytes).len() == bytes.len() / 4,
        0 <= k < bytes.len() / 4 ==> f32_samples(bytes)[k] == bytes[4 * k] + 0x100 * bytes[4 * k + 1] + 0x1_0000 * bytes[4 * k
            + 2] + 0x100_0000 * bytes[4 * k + 3],
{
    law_le_values(bytes.subrange(4 * k, 4 * k + 4));
}

} // verus!
