//! Big-endian integers and byte-sequence helpers shared by the file formats.

use vstd::prelude::*;

verus! {

/// The two big-endian bytes of `value`.
pub open spec fn be16(value: u16) -> Seq<u8> {
    seq![(value >> 8) as u8, value as u8]
}

/// The four big-endian bytes of `value`.
pub open spec fn be32(value: u32) -> Seq<u8> {
    seq![(value >> 24) as u8, (value >> 16) as u8, (value >> 8) as u8, value as u8]
}

/// The eight big-endian bytes of `value`.
pub open spec fn be64(value: u64) -> Seq<u8> {
    seq![
        (value >> 56) as u8,
        (value >> 48) as u8,
        (value >> 40) as u8,
        (value >> 32) as u8,
        (value >> 24) as u8,
        (value >> 16) as u8,
        (value >> 8) as u8,
        value as u8,
    ]
}

/// The integer whose big-endian bytes are the first two of `bytes`.
pub open spec fn from_be16(bytes: Seq<u8>) -> u16 {
    ((bytes[0] as u16) << 8) | (bytes[1] as u16)
}

/// The integer whose big-endian bytes are the first four of `bytes`.
pub open spec fn from_be32(bytes: Seq<u8>) -> u32 {
    ((bytes[0] as u32) << 24) | ((bytes[1] as u32) << 16) | ((bytes[2] as u32) << 8) | (
    bytes[3] as u32)
}

/// The integer whose big-endian bytes are the first eight of `bytes`.
pub open spec fn from_be64(bytes: Seq<u8>) -> u64 {
    ((bytes[0] as u64) << 56) | ((bytes[1] as u64) << 48) | ((bytes[2] as u64) << 40) | ((
    bytes[3] as u64) << 32) | ((bytes[4] as u64) << 24) | ((bytes[5] as u64) << 16) | ((
    bytes[6] as u64) << 8) | (bytes[7] as u64)
}

/// Reading back the two bytes of a `u16` gives that `u16`.
pub broadcast proof fn lemma_be16_round_trip(value: u16)
    ensures
        #[trigger] from_be16(be16(value)) == value,
{
    assert((((value >> 8) as u8) as u16) << 8 | ((value as u8) as u16) == value) by (bit_vector);
}

/// Reading back the four bytes of a `u32` gives that `u32`.
pub broadcast proof fn lemma_be32_round_trip(value: u32)
    ensures
        #[trigger] from_be32(be32(value)) == value,
{
    assert(((((value >> 24) as u8) as u32) << 24) | ((((value >> 16) as u8) as u32) << 16) | ((((
    value >> 8) as u8) as u32) << 8) | ((value as u8) as u32) == value) by (bit_vector);
}

/// Reading back the eight bytes of a `u64` gives that `u64`.
pub broadcast proof fn lemma_be64_round_trip(value: u64)
    ensures
        #[trigger] from_be64(be64(value)) == value,
{
    assert(((((value >> 56) as u8) as u64) << 56) | ((((value >> 48) as u8) as u64) << 48) | ((((
    value >> 40) as u8) as u64) << 40) | ((((value >> 32) as u8) as u64) << 32) | ((((value
        >> 24) as u8) as u64) << 24) | ((((value >> 16) as u8) as u64) << 16) | ((((value
        >> 8) as u8) as u64) << 8) | ((value as u8) as u64) == value) by (bit_vector);
}

/// The eight bytes of the `u64` that eight bytes stand for are those bytes.
pub proof fn lemma_be64_of_bytes(bytes: Seq<u8>)
    requires
        bytes.len() == 8,
    ensures
        be64(from_be64(bytes)) == bytes,
{
    let (a, b, c, d) = (bytes[0], bytes[1], bytes[2], bytes[3]);
    let (e, f, g, h) = (bytes[4], bytes[5], bytes[6], bytes[7]);
    let value = from_be64(bytes);
    assert((value >> 56) as u8 == a && (value >> 48) as u8 == b && (value >> 40) as u8 == c && (value >> 32) as u8 == d && (value >> 24) as u8 == e && (value >> 16) as u8 == f && (value >> 8) as u8 == g && value as u8 == h) by (bit_vector)
        requires
            value == ((a as u64) << 56) | ((b as u64) << 48) | ((c as u64) << 40) | ((d as u64) << 32) | ((e as u64) << 24) | ((f as u64) << 16) | ((g as u64) << 8) | (h as u64),
    ;
    assert(be64(value) =~= bytes);
}

/// Appends the big-endian bytes of `value`.
pub fn push_u16(output: &mut Vec<u8>, value: u16)
    ensures
        final(output)@ == old(output)@ + be16(value),
{
    output.push((value >> 8) as u8);
    output.push(#[verifier::truncate] (value as u8));
    assert(output@ =~= old(output)@ + be16(value));
}

/// Appends the big-endian bytes of `value`.
pub fn push_u32(output: &mut Vec<u8>, value: u32)
    ensures
        final(output)@ == old(output)@ + be32(value),
{
    output.push(#[verifier::truncate] ((value >> 24) as u8));
    output.push(#[verifier::truncate] ((value >> 16) as u8));
    output.push(#[verifier::truncate] ((value >> 8) as u8));
    output.push(#[verifier::truncate] (value as u8));
    assert(output@ =~= old(output)@ + be32(value));
}

/// Appends the big-endian bytes of `value`.
pub fn push_u64(output: &mut Vec<u8>, value: u64)
    ensures
        final(output)@ == old(output)@ + be64(value),
{
    output.push(#[verifier::truncate] ((value >> 56) as u8));
    output.push(#[verifier::truncate] ((value >> 48) as u8));
    output.push(#[verifier::truncate] ((value >> 40) as u8));
    output.push(#[verifier::truncate] ((value >> 32) as u8));
    output.push(#[verifier::truncate] ((value >> 24) as u8));
    output.push(#[verifier::truncate] ((value >> 16) as u8));
    output.push(#[verifier::truncate] ((value >> 8) as u8));
    output.push(#[verifier::truncate] (value as u8));
    assert(output@ =~= old(output)@ + be64(value));
}

/// Appends every byte of `input`.
pub fn push_bytes(output: &mut Vec<u8>, input: &[u8])
    ensures
        final(output)@ == old(output)@ + input@,
{
    output.extend_from_slice(input);
    assert(output@ =~= old(output)@ + input@);
}

/// Reads the big-endian `u16` that starts at `at`.
pub fn u16_at(input: &[u8], at: usize) -> (value: u16)
    requires
        at + 2 <= input@.len(),
    ensures
        value == from_be16(input@.subrange(at as int, at + 2)),
{
    ((input[at] as u16) << 8) | (input[at + 1] as u16)
}

/// Reads the big-endian `u32` that starts at `at`.
pub fn u32_at(input: &[u8], at: usize) -> (value: u32)
    requires
        at + 4 <= input@.len(),
    ensures
        value == from_be32(input@.subrange(at as int, at + 4)),
{
    ((input[at] as u32) << 24) | ((input[at + 1] as u32) << 16) | ((input[at + 2] as u32) << 8) | (
    input[at + 3] as u32)
}

/// Reads the big-endian `u64` that starts at `at`.
pub fn u64_at(input: &[u8], at: usize) -> (value: u64)
    requires
        at + 8 <= input@.len(),
    ensures
        value == from_be64(input@.subrange(at as int, at + 8)),
{
    ((input[at] as u64) << 56) | ((input[at + 1] as u64) << 48) | ((input[at + 2] as u64) << 40) | ((
    input[at + 3] as u64) << 32) | ((input[at + 4] as u64) << 24) | ((input[at + 5] as u64) << 16)
        | ((input[at + 6] as u64) << 8) | (input[at + 7] as u64)
}

/// The array that holds `bytes`, which must be 32 of them.
pub open spec fn array32(bytes: Seq<u8>) -> [u8; 32] {
    choose|array: [u8; 32]| array@ == bytes
}

/// An array is the one that holds its own bytes.
pub broadcast proof fn lemma_array32(array: [u8; 32])
    ensures
        #[trigger] array32(array@) == array,
{
    let chosen = array32(array@);
    assert(exists|other: [u8; 32]| other@ == array@);
    assert(chosen@ == array@);
    lemma_same_view_same_array(chosen, array);
}

/// Copies the 32 bytes that start at `at`.
pub fn array32_at(input: &[u8], at: usize) -> (value: [u8; 32])
    requires
        at + 32 <= input@.len(),
    ensures
        value@ == input@.subrange(at as int, at + 32),
        value == array32(input@.subrange(at as int, at + 32)),
{
    let mut value: [u8; 32] = [0u8;32];
    let mut index: usize = 0;
    while index < 32
        invariant
            index <= 32,
            at + 32 <= input.len(),
            forall|k: int| 0 <= k < index ==> value[k] == input@[at + k],
        decreases 32 - index,
    {
        value[index] = input[at + index];
        index += 1;
    }
    proof {
        assert(value@ =~= input@.subrange(at as int, at + 32));
        lemma_array32(value);
    }
    value
}

/// The array that holds `bytes`, which must be 20 of them.
pub open spec fn array20(bytes: Seq<u8>) -> [u8; 20] {
    choose|array: [u8; 20]| array@ == bytes
}

/// Copies the 20 bytes that start at `at`.
pub fn array20_at(input: &[u8], at: usize) -> (value: [u8; 20])
    requires
        at + 20 <= input@.len(),
    ensures
        value@ == input@.subrange(at as int, at + 20),
        value == array20(input@.subrange(at as int, at + 20)),
{
    let mut value: [u8; 20] = [0u8;20];
    let mut index: usize = 0;
    while index < 20
        invariant
            index <= 20,
            at + 20 <= input.len(),
            forall|k: int| 0 <= k < index ==> value[k] == input@[at + k],
        decreases 20 - index,
    {
        value[index] = input[at + index];
        index += 1;
    }
    proof {
        assert(value@ =~= input@.subrange(at as int, at + 20));
        assert(exists|other: [u8; 20]| other@ == value@);
        lemma_same_view_same_array(array20(value@), value);
    }
    value
}

/// Two arrays with the same bytes are the same array.
pub proof fn lemma_same_view_same_array<const N: usize>(left: [u8; N], right: [u8; N])
    requires
        left@ == right@,
    ensures
        left == right,
{
    assert forall|k: int| 0 <= k < N implies left[k] == right[k] by {
        assert(left@[k] == right@[k]);
    }
    assert(left =~= right);
}

/// Whether two arrays hold the same bytes.
pub fn same_array<const N: usize>(left: &[u8; N], right: &[u8; N]) -> (same: bool)
    ensures
        same == (*left == *right),
        same == (left@ == right@),
{
    let mut index: usize = 0;
    while index < N
        invariant
            index <= N,
            forall|k: int| 0 <= k < index ==> left[k] == right[k],
        decreases N - index,
    {
        if left[index] != right[index] {
            assert(left@[index as int] != right@[index as int]);
            return false;
        }
        index += 1;
    }
    assert(*left =~= *right);
    true
}

/// Whether two slices hold the same bytes.
pub fn same_bytes(left: &[u8], right: &[u8]) -> (same: bool)
    ensures
        same == (left@ == right@),
{
    if left.len() != right.len() {
        return false;
    }
    let mut index: usize = 0;
    while index < left.len()
        invariant
            index <= left@.len(),
            left@.len() == right@.len(),
            forall|k: int| 0 <= k < index ==> left@[k] == right@[k],
        decreases left@.len() - index,
    {
        if left[index] != right[index] {
            assert(left@[index as int] != right@[index as int]);
            return false;
        }
        index += 1;
    }
    assert(left@ =~= right@);
    true
}

/// Where the parts of four joined sequences stand.
pub proof fn lemma_joined_four(
    first: Seq<u8>,
    second: Seq<u8>,
    third: Seq<u8>,
    fourth: Seq<u8>,
)
    ensures
        ({
            let all = first + second + third + fourth;
            let two: int = first.len() + second.len() as int;
            let three: int = two + third.len();
            &&& all.len() == three + fourth.len()
            &&& all.subrange(0, first.len() as int) == first
            &&& all.subrange(first.len() as int, two) == second
            &&& all.subrange(two, three) == third
            &&& all.subrange(three, three + fourth.len()) == fourth
        }),
{
    let all = first + second + third + fourth;
    let two: int = first.len() + second.len() as int;
    let three: int = two + third.len();
    assert(all.subrange(0, first.len() as int) =~= first);
    assert(all.subrange(first.len() as int, two) =~= second);
    assert(all.subrange(two, three) =~= third);
    assert(all.subrange(three, three + fourth.len()) =~= fourth);
}

/// A part of a part is a part of the whole.
pub proof fn lemma_part_of_part(file: Seq<u8>, from: int, to: int, first: int, last: int)
    requires
        0 <= from <= to <= file.len(),
        0 <= first <= last <= to - from,
    ensures
        file.subrange(from, to).subrange(first, last) == file.subrange(from + first, from + last),
{
    assert(file.subrange(from, to).subrange(first, last) =~= file.subrange(
        from + first,
        from + last,
    ));
}

} // verus!
