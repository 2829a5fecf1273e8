use byteorder::{ByteOrder, LittleEndian};
use vstd::prelude::*;

verus! {

/// The number whose little-endian encoding starts `b` (its first eight bytes).
pub open spec fn le_u64(b: Seq<u8>) -> u64 {
    (b[0] as u64) | ((b[1] as u64) << 8u64) | ((b[2] as u64) << 16u64) | ((b[3] as u64) << 24u64)
        | ((b[4] as u64) << 32u64) | ((b[5] as u64) << 40u64) | ((b[6] as u64) << 48u64) | ((
    b[7] as u64) << 56u64)
}

/// Byte `i` (least significant first) of `n`.
pub open spec fn le_byte(n: u64, i: u64) -> u8 {
    ((n >> (8 * i)) & 0xffu64) as u8
}

/// Calls `LittleEndian::read_u64` (byteorder), which reads the first eight bytes as a
/// little-endian number and panics on fewer. Claimed: that number.
#[verifier::external_body]
fn read_u64_le(bytes: &[u8]) -> (n: u64)
    requires
        bytes@.len() >= 8,
    ensures
        n == le_u64(bytes@),
{
    LittleEndian::read_u64(bytes)
}

/// Calls `LittleEndian::write_u64` (byteorder) on an eight-byte buffer. Claimed: byte `i`
/// of the buffer becomes byte `i` of `n`, least significant first.
#[verifier::external_body]
fn write_u64_le(buf: &mut [u8; 8], n: u64)
    ensures
        forall|i: int| 0 <= i < 8 ==> #[trigger] final(buf)@[i] == le_byte(n, i as u64),
{
    LittleEndian::write_u64(buf, n)
}

/// Stores a `u64` as an eight-byte little-endian blob.
pub struct BigIntAsBlob;

impl BigIntAsBlob {
    /// The number stored in the blob `bytes` (its first eight bytes).
    pub fn from_bytes(bytes: &[u8]) -> (n: u64)
        requires
            bytes@.len() >= 8,
        ensures
            n == le_u64(bytes@),
    {
        read_u64_le(bytes)
    }

    /// The blob storing `number`.
    pub fn from_u64(number: &u64) -> (blob: Vec<u8>)
        ensures
            blob@.len() == 8,
            forall|i: int| 0 <= i < 8 ==> #[trigger] blob@[i] == le_byte(*number, i as u64),
    {
        let mut buf = [0u8;8];
        write_u64_le(&mut buf, *number);
        let mut blob: Vec<u8> = Vec::new();
        let mut i: usize = 0;
        while i < 8
            invariant
                i <= 8,
                blob@.len() == i,
                forall|j: int| 0 <= j < 8 ==> #[trigger] buf@[j] == le_byte(*number, j as u64),
                forall|j: int| 0 <= j < i ==> #[trigger] blob@[j] == buf@[j],
            decreases 8 - i,
        {
            blob.push(buf[i]);
            i = i + 1;
        }
        blob
    }
}

/// Reading back a stored number gives the number.
pub proof fn lemma_blob_round_trip(n: u64, blob: Seq<u8>)
    requires
        blob.len() == 8,
        forall|i: int| 0 <= i < 8 ==> #[trigger] blob[i] == le_byte(n, i as u64),
    ensures
        le_u64(blob) == n,
{
    let b0 = blob[0];
    let b1 = blob[1];
    let b2 = blob[2];
    let b3 = blob[3];
    let b4 = blob[4];
    let b5 = blob[5];
    let b6 = blob[6];
    let b7 = blob[7];
    assert(b0 == le_byte(n, 0));
    assert(b1 == le_byte(n, 1));
    assert(b2 == le_byte(n, 2));
    assert(b3 == le_byte(n, 3));
    assert(b4 == le_byte(n, 4));
    assert(b5 == le_byte(n, 5));
    assert(b6 == le_byte(n, 6));
    assert(b7 == le_byte(n, 7));
    assert((b0 as u64) | ((b1 as u64) << 8u64) | ((b2 as u64) << 16u64) | ((b3 as u64) << 24u64)
        | ((b4 as u64) << 32u64) | ((b5 as u64) << 40u64) | ((b6 as u64) << 48u64) | ((
    b7 as u64) << 56u64) == n) by (bit_vector)
        requires
            b0 == ((n >> 0u64) & 0xffu64) as u8,
            b1 == ((n >> 8u64) & 0xffu64) as u8,
            b2 == ((n >> 16u64) & 0xffu64) as u8,
            b3 == ((n >> 24u64) & 0xffu64) as u8,
            b4 == ((n >> 32u64) & 0xffu64) as u8,
            b5 == ((n >> 40u64) & 0xffu64) as u8,
            b6 == ((n >> 48u64) & 0xffu64) as u8,
            b7 == ((n >> 56u64) & 0xffu64) as u8,
    ;
}

/// Storing the number read from a blob gives back the blob's first eight bytes.
pub proof fn lemma_number_round_trip(blob: Seq<u8>, i: int)
    requires
        blob.len() >= 8,
        0 <= i < 8,
    ensures
        le_byte(le_u64(blob), i as u64) == blob[i],
{
    let b0 = blob[0];
    let b1 = blob[1];
    let b2 = blob[2];
    let b3 = blob[3];
    let b4 = blob[4];
    let b5 = blob[5];
    let b6 = blob[6];
    let b7 = blob[7];
    let n = le_u64(blob);
    assert(n == (b0 as u64) | ((b1 as u64) << 8u64) | ((b2 as u64) << 16u64) | ((b3 as u64) << 24u64)
        | ((b4 as u64) << 32u64) | ((b5 as u64) << 40u64) | ((b6 as u64) << 48u64) | ((
    b7 as u64) << 56u64));
    assert(((n >> 0u64) & 0xffu64) as u8 == b0 && ((n >> 8u64) & 0xffu64) as u8 == b1
        && ((n >> 16u64) & 0xffu64) as u8 == b2 && ((n >> 24u64) & 0xffu64) as u8 == b3
        && ((n >> 32u64) & 0xffu64) as u8 == b4 && ((n >> 40u64) & 0xffu64) as u8 == b5
        && ((n >> 48u64) & 0xffu64) as u8 == b6 && ((n >> 56u64) & 0xffu64) as u8 == b7)
        by (bit_vector)
        requires
            n == (b0 as u64) | ((b1 as u64) << 8u64) | ((b2 as u64) << 16u64) | ((b3 as u64) << 24u64)
                | ((b4 as u64) << 32u64) | ((b5 as u64) << 40u64) | ((b6 as u64) << 48u64) | ((
            b7 as u64) << 56u64),
    ;
    assert(le_byte(n, 0) == b0);
    assert(le_byte(n, 1) == b1);
    assert(le_byte(n, 2) == b2);
    assert(le_byte(n, 3) == b3);
    assert(le_byte(n, 4) == b4);
    assert(le_byte(n, 5) == b5);
    assert(le_byte(n, 6) == b6);
    assert(le_byte(n, 7) == b7);
}

} // verus!
