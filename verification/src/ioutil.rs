//! Platform-independent packing of unsigned integers into byte buffers,
//! always big-endian (network order).

use vstd::prelude::*;
use vstd::string::StringSliceAdditionalSpecFns;

verus! {

/// The two big-endian bytes of a `u16`.
pub open spec fn u16_be_bytes(value: u16) -> Seq<u8> {
    seq![(value >> 8) as u8, value as u8]
}

/// The four big-endian bytes of a `u32`.
pub open spec fn u32_be_bytes(value: u32) -> Seq<u8> {
    seq![
        (value >> 24) as u8,
        (value >> 16) as u8,
        (value >> 8) as u8,
        value as u8,
    ]
}

/// The eight big-endian bytes of a `u64`.
pub open spec fn u64_be_bytes(value: u64) -> Seq<u8> {
    seq![
        (value >> 56) as u8,
        (value >> 48) as u8,
        (value >> 40) as u8,
        (value >> 32) as u8,
        (value >> 24) as u8,
        (value >> 16) as u8,
        (value >> 8) as u8,
        value as u8,
    ]
}

/// The `u16` read big-endian from the first two bytes of `s`.
pub open spec fn be_u16(s: Seq<u8>) -> u16
    recommends
        s.len() >= 2,
{
    (((s[0] as u16) << 8) | (s[1] as u16)) as u16
}

/// The `u32` read big-endian from the first four bytes of `s`.
pub open spec fn be_u32(s: Seq<u8>) -> u32
    recommends
        s.len() >= 4,
{
    (((s[0] as u32) << 24) | ((s[1] as u32) << 16) | ((s[2] as u32) << 8) | (s[3] as u32)) as u32
}

/// The `u64` read big-endian from the first eight bytes of `s`.
pub open spec fn be_u64(s: Seq<u8>) -> u64
    recommends
        s.len() >= 8,
{
    (((s[0] as u64) << 56) | ((s[1] as u64) << 48) | ((s[2] as u64) << 40) | ((s[3] as u64) << 32)
        | ((s[4] as u64) << 24) | ((s[5] as u64) << 16) | ((s[6] as u64) << 8) | (s[7] as u64)) as u64
}

/// Pack a `u8` into the buffer at `offset`; returns the offset just past it.
pub fn pack_u8_be(buf: &mut Vec<u8>, offset: usize, value: u8) -> (end: usize)
    requires
        offset + 1 <= old(buf).len(),
    ensures
        end == offset + 1,
        final(buf)@.len() == old(buf)@.len(),
        final(buf)@ == old(buf)@.update(offset as int, value),
{
    buf[offset] = value;
    offset + 1
}

/// Pack a `u16` big-endian into the buffer at `offset`; returns the offset just past it.
pub fn pack_u16_be(buf: &mut Vec<u8>, offset: usize, value: u16) -> (end: usize)
    requires
        offset + 2 <= old(buf).len(),
    ensures
        end == offset + 2,
        final(buf)@.len() == old(buf)@.len(),
        final(buf)@.subrange(offset as int, offset + 2) == u16_be_bytes(value),
        forall|i: int| 0 <= i < final(buf)@.len() && !(offset <= i < offset + 2) ==> final(buf)@[i] == old(buf)@[i],
{
    buf[offset] = #[verifier::truncate] ((value >> 8) as u8);
    buf[offset + 1] = #[verifier::truncate] (value as u8);
    assert(buf@.subrange(offset as int, offset + 2) =~= u16_be_bytes(value));
    offset + 2
}

/// Pack a `u32` big-endian into the buffer at `offset`; returns the offset just past it.
pub fn pack_u32_be(buf: &mut Vec<u8>, offset: usize, value: u32) -> (end: usize)
    requires
        offset + 4 <= old(buf).len(),
    ensures
        end == offset + 4,
        final(buf)@.len() == old(buf)@.len(),
        final(buf)@.subrange(offset as int, offset + 4) == u32_be_bytes(value),
        forall|i: int| 0 <= i < final(buf)@.len() && !(offset <= i < offset + 4) ==> final(buf)@[i] == old(buf)@[i],
{
    buf[offset] = #[verifier::truncate] ((value >> 24) as u8);
    buf[offset + 1] = #[verifier::truncate] ((value >> 16) as u8);
    buf[offset + 2] = #[verifier::truncate] ((value >> 8) as u8);
    buf[offset + 3] = #[verifier::truncate] (value as u8);
    assert(buf@.subrange(offset as int, offset + 4) =~= u32_be_bytes(value));
    offset + 4
}

/// Pack a `u64` big-endian into the buffer at `offset`; returns the offset just past it.
pub fn pack_u64_be(buf: &mut Vec<u8>, offset: usize, value: u64) -> (end: usize)
    requires
        offset + 8 <= old(buf).len(),
    ensures
        end == offset + 8,
        final(buf)@.len() == old(buf)@.len(),
        final(buf)@.subrange(offset as int, offset + 8) == u64_be_bytes(value),
        forall|i: int| 0 <= i < final(buf)@.len() && !(offset <= i < offset + 8) ==> final(buf)@[i] == old(buf)@[i],
{
    buf[offset] = #[verifier::truncate] ((value >> 56) as u8);
    buf[offset + 1] = #[verifier::truncate] ((value >> 48) as u8);
    buf[offset + 2] = #[verifier::truncate] ((value >> 40) as u8);
    buf[offset + 3] = #[verifier::truncate] ((value >> 32) as u8);
    buf[offset + 4] = #[verifier::truncate] ((value >> 24) as u8);
    buf[offset + 5] = #[verifier::truncate] ((value >> 16) as u8);
    buf[offset + 6] = #[verifier::truncate] ((value >> 8) as u8);
    buf[offset + 7] = #[verifier::truncate] (value as u8);
    assert(buf@.subrange(offset as int, offset + 8) =~= u64_be_bytes(value));
    offset + 8
}

/// Unpack the `u8` stored at `offset`.
pub fn unpack_u8_be(buf: &Vec<u8>, offset: usize) -> (value: u8)
    requires
        offset + 1 <= buf.len(),
    ensures
        value == buf@[offset as int],
{
    buf[offset]
}

/// Unpack the big-endian `u16` stored at `offset`.
pub fn unpack_u16_be(buf: &Vec<u8>, offset: usize) -> (value: u16)
    requires
        offset + 2 <= buf.len(),
    ensures
        value == be_u16(buf@.skip(offset as int)),
{
    let value = ((buf[offset] as u16) << 8) | (buf[offset + 1] as u16);
    assert(buf@.skip(offset as int)[0] == buf@[offset as int]);
    assert(buf@.skip(offset as int)[1] == buf@[offset as int + 1]);
    value
}

/// Unpack the big-endian `u32` stored at `offset`.
pub fn unpack_u32_be(buf: &Vec<u8>, offset: usize) -> (value: u32)
    requires
        offset + 4 <= buf.len(),
    ensures
        value == be_u32(buf@.skip(offset as int)),
{
    let value = ((buf[offset] as u32) << 24) | ((buf[offset + 1] as u32) << 16)
        | ((buf[offset + 2] as u32) << 8) | (buf[offset + 3] as u32);
    assert(forall|i: int| 0 <= i < 4 ==> buf@.skip(offset as int)[i] == buf@[offset + i]);
    value
}

/// Unpack the big-endian `u64` stored at `offset`.
pub fn unpack_u64_be(buf: &Vec<u8>, offset: usize) -> (value: u64)
    requires
        offset + 8 <= buf.len(),
    ensures
        value == be_u64(buf@.skip(offset as int)),
{
    let value = ((buf[offset] as u64) << 56) | ((buf[offset + 1] as u64) << 48)
        | ((buf[offset + 2] as u64) << 40) | ((buf[offset + 3] as u64) << 32)
        | ((buf[offset + 4] as u64) << 24) | ((buf[offset + 5] as u64) << 16)
        | ((buf[offset + 6] as u64) << 8) | (buf[offset + 7] as u64);
    assert(forall|i: int| 0 <= i < 8 ==> buf@.skip(offset as int)[i] == buf@[offset + i]);
    value
}

/// Unpacking the two bytes that packing wrote gives the value back.
pub proof fn lemma_u16_be_round_trip(value: u16)
    ensures
        be_u16(u16_be_bytes(value)) == value,
        u16_be_bytes(value).len() == 2,
{
    assert((((((value >> 8) as u8) as u16) << 8) | ((value as u8) as u16)) == value)
        by (bit_vector);
}

/// Unpacking the four bytes that packing wrote gives the value back.
pub proof fn lemma_u32_be_round_trip(value: u32)
    ensures
        be_u32(u32_be_bytes(value)) == value,
        u32_be_bytes(value).len() == 4,
{
    assert(((((value >> 24) as u8) as u32) << 24 | (((value >> 16) as u8) as u32) << 16
        | (((value >> 8) as u8) as u32) << 8 | ((value as u8) as u32)) == value)
        by (bit_vector);
}

/// Unpacking the eight bytes that packing wrote gives the value back.
pub proof fn lemma_u64_be_round_trip(value: u64)
    ensures
        be_u64(u64_be_bytes(value)) == value,
        u64_be_bytes(value).len() == 8,
{
    assert(((((value >> 56) as u8) as u64) << 56 | (((value >> 48) as u8) as u64) << 48
        | (((value >> 40) as u8) as u64) << 40 | (((value >> 32) as u8) as u64) << 32
        | (((value >> 24) as u8) as u64) << 24 | (((value >> 16) as u8) as u64) << 16
        | (((value >> 8) as u8) as u64) << 8 | ((value as u8) as u64)) == value)
        by (bit_vector);
}

/// Copy `len` bytes of `from_buf` starting at `from_offset` into `to_buf` at
/// `to_offset`; returns the destination offset just past the copy.
pub fn copy_bytes(
    to_buf: &mut Vec<u8>,
    to_offset: usize,
    from_buf: &[u8],
    from_offset: usize,
    len: usize,
) -> (end: usize)
    requires
        to_offset + len <= old(to_buf).len(),
        from_offset + len <= from_buf.len(),
    ensures
        end == to_offset + len,
        final(to_buf)@.len() == old(to_buf)@.len(),
        final(to_buf)@.subrange(to_offset as int, to_offset + len)
            == from_buf@.subrange(from_offset as int, from_offset + len),
        forall|j: int|
            0 <= j < len ==> final(to_buf)@[to_offset + j] == #[trigger] from_buf@[from_offset
                + j],
        forall|i: int|
            0 <= i < final(to_buf)@.len() && !(to_offset <= i < to_offset + len)
                ==> final(to_buf)@[i] == old(to_buf)@[i],
{
    let mut i: usize = 0;
    while i < len
        invariant
            i <= len,
            to_offset + len <= to_buf.len(),
            from_offset + len <= from_buf.len(),
            to_buf@.len() == old(to_buf)@.len(),
            forall|j: int|
                0 <= j < i ==> to_buf@[to_offset + j] == #[trigger] from_buf@[from_offset + j],
            forall|j: int|
                0 <= j < to_buf@.len() && !(to_offset <= j < to_offset + i)
                    ==> to_buf@[j] == old(to_buf)@[j],
        decreases len - i,
    {
        to_buf[to_offset + i] = from_buf[from_offset + i];
        i = i + 1;
    }
    proof {
        let a = to_buf@.subrange(to_offset as int, to_offset + len);
        let b = from_buf@.subrange(from_offset as int, from_offset + len);
        assert forall|k: int| 0 <= k < len implies a[k] == b[k] by {
            assert(a[k] == to_buf@[to_offset + k]);
            assert(b[k] == from_buf@[from_offset + k]);
        }
        assert(a =~= b);
    }
    to_offset + len
}

/// Pack the bytes of a string into the buffer at `offset`; returns the offset
/// just past them.
pub fn pack_str(buf: &mut Vec<u8>, offset: usize, str_value: &str) -> (end: usize)
    requires
        offset + str_value.spec_bytes().len() <= old(buf).len(),
    ensures
        end == offset + str_value.spec_bytes().len(),
        final(buf)@.len() == old(buf)@.len(),
        final(buf)@.subrange(offset as int, offset + str_value.spec_bytes().len())
            == str_value.spec_bytes(),
        forall|i: int|
            0 <= i < final(buf)@.len() && !(offset <= i < offset + str_value.spec_bytes().len())
                ==> final(buf)@[i] == old(buf)@[i],
{
    let str_bytes = str_value.as_bytes();
    let end = copy_bytes(buf, offset, str_bytes, 0, str_bytes.len());
    assert(buf@.subrange(offset as int, offset + str_value.spec_bytes().len())
        =~= str_value.spec_bytes());
    end
}

/// XOR of the buffer's consecutive four-byte big-endian words, ignoring any
/// trailing bytes past the last whole word.
pub open spec fn fold_bytes_spec(bytes: Seq<u8>) -> u32
    decreases bytes.len(),
{
    if bytes.len() < 4 {
        0u32
    } else {
        be_u32(bytes) ^ fold_bytes_spec(bytes.skip(4))
    }
}

/// Fold the buffer into a `u32` by XOR-ing its four-byte big-endian words.
pub fn fold_bytes(bytes: &Vec<u8>) -> (value: u32)
    ensures
        value == fold_bytes_spec(bytes@),
{
    let mut value: u32 = 0;
    let mut offset: usize = 0;
    proof {
        assert(bytes@.skip(0) =~= bytes@);
        let f = fold_bytes_spec(bytes@);
        assert(0u32 ^ f == f) by (bit_vector);
    }
    while offset < bytes.len() && bytes.len() - offset >= 4
        invariant
            offset <= bytes@.len(),
            fold_bytes_spec(bytes@) == value ^ fold_bytes_spec(bytes@.skip(offset as int)),
        decreases bytes@.len() - offset,
    {
        let val4 = unpack_u32_be(bytes, offset);
        proof {
            let rest = bytes@.skip(offset as int);
            assert(rest.skip(4) =~= bytes@.skip(offset + 4));
            assert(fold_bytes_spec(rest) == be_u32(rest) ^ fold_bytes_spec(rest.skip(4)));
            let v = value;
            let a = be_u32(rest);
            let b = fold_bytes_spec(rest.skip(4));
            assert(v ^ (a ^ b) == (v ^ a) ^ b) by (bit_vector);
        }
        value = value ^ val4;
        offset = offset + 4;
    }
    proof {
        assert(fold_bytes_spec(bytes@.skip(offset as int)) == 0u32);
        let v = value;
        assert(v ^ 0u32 == v) by (bit_vector);
    }
    value
}

} // verus!
