use vstd::prelude::*;

verus! {

/// The signed 16-bit value of two bytes, the first the least significant.
pub open spec fn i16_le(first: u8, second: u8) -> int {
    let v = first + 256 * second;
    if v >= 32768 {
        v - 65536
    } else {
        v
    }
}

/// The signed 16-bit value of two bytes, the first the most significant.
pub open spec fn i16_be(first: u8, second: u8) -> int {
    i16_le(second, first)
}

/// A 16-bit sample from its two bytes in memory order.
///
/// Calls `i16::from_ne_bytes`, which reads the bytes in the machine's own
/// byte order; the contract states that the result is one of the two
/// readings, since which one depends on the machine.
#[verifier::external_body]
fn sample_from_bytes(first: u8, second: u8) -> (r: i16)
    ensures
        r == i16_le(first, second) || r == i16_be(first, second),
{
    i16::from_ne_bytes([first, second])
}

/// The sample that two bytes hold, the first the least significant.
fn sample_le(first: u8, second: u8) -> (r: i16)
    ensures
        r == i16_le(first, second),
{
    let v: u32 = first as u32 + 256 * (second as u32);
    if v >= 32768 {
        (v as i32 - 65536) as i16
    } else {
        v as i16
    }
}

/// Every sample of `r` is read from its two bytes of `bytes` in the byte
/// order `little` (least significant first) or the other one.
pub open spec fn read_in_order(bytes: Seq<u8>, r: Seq<i16>, little: bool) -> bool {
    forall|k: int|
        0 <= k < r.len() ==> #[trigger] r[k] == if little {
            i16_le(bytes[2 * k], bytes[2 * k + 1])
        } else {
            i16_be(bytes[2 * k], bytes[2 * k + 1])
        }
}

/// Reads a buffer of signed 16-bit samples in the given byte order
/// (`little`: least significant byte first): one sample per two bytes, a
/// trailing odd byte ignored.
pub fn pcm16_samples_in_order(bytes: &[u8], little: bool) -> (r: Vec<i16>)
    ensures
        r@.len() == bytes@.len() / 2,
        read_in_order(bytes@, r@, little),
{
    let len = bytes.len();
    let count = len / 2;
    let mut out: Vec<i16> = Vec::new();
    let mut k: usize = 0;
    assert(2 * count <= len);
    while k < count
        invariant
            len == bytes@.len(),
            count == len / 2,
            2 * count <= len,
            k <= count,
            out@.len() == k,
            read_in_order(bytes@, out@, little),
        decreases count - k,
    {
        let s = if little {
            sample_le(bytes[2 * k], bytes[2 * k + 1])
        } else {
            sample_le(bytes[2 * k + 1], bytes[2 * k])
        };
        let ghost before = out@;
        out.push(s);
        assert forall|j: int| 0 <= j < out@.len() implies #[trigger] out@[j] == if little {
            i16_le(bytes@[2 * j], bytes@[2 * j + 1])
        } else {
            i16_be(bytes@[2 * j], bytes@[2 * j + 1])
        } by {
            if j < before.len() {
                assert(out@[j] == before[j]);
            }
        }
        k = k + 1;
    }
    out
}

/// Reads a buffer of signed 16-bit samples in the machine's byte order:
/// one sample per two bytes, a trailing odd byte ignored. The machine's
/// order is found once, by reading the bytes `[1, 0]` (1 when the least
/// significant byte comes first), and `pcm16_samples_in_order` reads every
/// sample in that order.
pub fn pcm16_samples(bytes: &[u8]) -> (r: Vec<i16>)
    ensures
        r@.len() == bytes@.len() / 2,
        read_in_order(bytes@, r@, true) || read_in_order(bytes@, r@, false),
{
    let little = sample_from_bytes(1, 0) == 1;
    pcm16_samples_in_order(bytes, little)
}

} // verus!
