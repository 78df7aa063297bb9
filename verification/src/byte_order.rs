//! The four-byte length field of a frame, in either byte order.

use vstd::prelude::*;

verus! {

/// The order in which the four bytes of a length field stand on the wire.
///
/// Each transport is configured with its own order; nothing in the library
/// assumes that two transports agree.
#[derive(Clone, Copy, Debug, PartialEq, Eq, Structural)]
pub enum ByteOrder {
    /// Most significant byte first.
    BigEndian,
    /// Least significant byte first.
    LittleEndian,
}

/// The number that four bytes denote when the first is the most significant.
pub open spec fn big_endian_value(bytes: Seq<u8>) -> int
    recommends
        bytes.len() == 4,
{
    bytes[0] * 0x100_0000 + bytes[1] * 0x1_0000 + bytes[2] * 0x100 + bytes[3]
}

/// The number that four bytes denote when the first is the least significant.
pub open spec fn little_endian_value(bytes: Seq<u8>) -> int
    recommends
        bytes.len() == 4,
{
    bytes[3] * 0x100_0000 + bytes[2] * 0x1_0000 + bytes[1] * 0x100 + bytes[0]
}

/// The four bytes of `n`, most significant first.
pub open spec fn big_endian_bytes(n: u32) -> Seq<u8> {
    seq![
        (n / 0x100_0000) as u8,
        (n / 0x1_0000 % 0x100) as u8,
        (n / 0x100 % 0x100) as u8,
        (n % 0x100) as u8,
    ]
}

/// The four bytes of `n`, least significant first.
pub open spec fn little_endian_bytes(n: u32) -> Seq<u8> {
    seq![
        (n % 0x100) as u8,
        (n / 0x100 % 0x100) as u8,
        (n / 0x1_0000 % 0x100) as u8,
        (n / 0x100_0000) as u8,
    ]
}

/// The length field that announces `n` bytes in the given order.
pub open spec fn length_field(n: u32, order: ByteOrder) -> Seq<u8> {
    match order {
        ByteOrder::BigEndian => big_endian_bytes(n),
        ByteOrder::LittleEndian => little_endian_bytes(n),
    }
}

/// The length that a four-byte field announces when read in the given order.
pub open spec fn announced_length(field: Seq<u8>, order: ByteOrder) -> int
    recommends
        field.len() == 4,
{
    match order {
        ByteOrder::BigEndian => big_endian_value(field),
        ByteOrder::LittleEndian => little_endian_value(field),
    }
}

/// Calls `<byteorder::BigEndian as byteorder::ByteOrder>::read_u32`, which
/// reads the first four bytes of its argument as a big-endian number.
#[verifier::external_body]
fn read_big_endian(field: &[u8; 4]) -> (n: u32)
    ensures
        n == big_endian_value(field@),
{
    <byteorder::BigEndian as byteorder::ByteOrder>::read_u32(field)
}

/// Calls `<byteorder::LittleEndian as byteorder::ByteOrder>::read_u32`, which
/// reads the first four bytes of its argument as a little-endian number.
#[verifier::external_body]
fn read_little_endian(field: &[u8; 4]) -> (n: u32)
    ensures
        n == little_endian_value(field@),
{
    <byteorder::LittleEndian as byteorder::ByteOrder>::read_u32(field)
}

/// Calls `<byteorder::NativeEndian as byteorder::ByteOrder>::read_u32`, which
/// reads four bytes in the order of the machine it runs on: as a big-endian
/// number on some machines, as a little-endian number on the others.
#[verifier::external_body]
fn read_native_endian(field: &[u8; 4]) -> (n: u32)
    ensures
        n == big_endian_value(field@) || n == little_endian_value(field@),
{
    <byteorder::NativeEndian as byteorder::ByteOrder>::read_u32(field)
}

/// Calls `<byteorder::BigEndian as byteorder::ByteOrder>::write_u32` on a
/// fresh four-byte buffer, which it fills with `n`, most significant byte
/// first.
#[verifier::external_body]
fn write_big_endian(n: u32) -> (field: [u8; 4])
    ensures
        field@ == big_endian_bytes(n),
{
    let mut field = [0u8; 4];
    <byteorder::BigEndian as byteorder::ByteOrder>::write_u32(&mut field, n);
    field
}

/// Calls `<byteorder::LittleEndian as byteorder::ByteOrder>::write_u32` on a
/// fresh four-byte buffer, which it fills with `n`, least significant byte
/// first.
#[verifier::external_body]
fn write_little_endian(n: u32) -> (field: [u8; 4])
    ensures
        field@ == little_endian_bytes(n),
{
    let mut field = [0u8; 4];
    <byteorder::LittleEndian as byteorder::ByteOrder>::write_u32(&mut field, n);
    field
}

impl ByteOrder {
    /// The order that reads the probe `[0, 0, 0, 1]` as `probed`: big-endian
    /// where that is 1, little-endian otherwise.
    pub open spec fn spec_from_probe(probed: u32) -> ByteOrder {
        if probed == 1 {
            ByteOrder::BigEndian
        } else {
            ByteOrder::LittleEndian
        }
    }

    /// The byte order under which the bytes `[0, 0, 0, 1]` read as `probed`.
    pub fn from_probe(probed: u32) -> (order: ByteOrder)
        ensures
            order == Self::spec_from_probe(probed),
    {
        if probed == 1 {
            ByteOrder::BigEndian
        } else {
            ByteOrder::LittleEndian
        }
    }

    /// The byte order of the machine that runs the relay, which the local
    /// transport uses for its length field.
    pub fn native() -> (order: ByteOrder)
        ensures
            order == ByteOrder::BigEndian || order == ByteOrder::LittleEndian,
    {
        let probe: [u8; 4] = [0, 0, 0, 1];
        Self::from_probe(read_native_endian(&probe))
    }

    /// Writes `n` as a length field in this order.
    pub fn write_length(self, n: u32) -> (field: [u8; 4])
        ensures
            field@ == length_field(n, self),
    {
        match self {
            ByteOrder::BigEndian => write_big_endian(n),
            ByteOrder::LittleEndian => write_little_endian(n),
        }
    }

    /// Reads the length that a length field announces in this order.
    pub fn read_length(self, field: &[u8; 4]) -> (n: u32)
        ensures
            n == announced_length(field@, self),
    {
        match self {
            ByteOrder::BigEndian => read_big_endian(field),
            ByteOrder::LittleEndian => read_little_endian(field),
        }
    }
}

/// In whichever order, a length field has four bytes and announces the length
/// it was written for.
pub proof fn lemma_length_field_round_trip(n: u32, order: ByteOrder)
    ensures
        length_field(n, order).len() == 4,
        announced_length(length_field(n, order), order) == n,
{
}

/// The base-256 digits of a number below 2^32 are found by dividing.
proof fn lemma_base_256_digits(d3: int, d2: int, d1: int, d0: int)
    requires
        0 <= d3 < 0x100,
        0 <= d2 < 0x100,
        0 <= d1 < 0x100,
        0 <= d0 < 0x100,
    ensures
        ({
            let v = d3 * 0x100_0000 + d2 * 0x1_0000 + d1 * 0x100 + d0;
            &&& 0 <= v <= u32::MAX
            &&& v / 0x100_0000 == d3
            &&& v / 0x1_0000 % 0x100 == d2
            &&& v / 0x100 % 0x100 == d1
            &&& v % 0x100 == d0
        }),
{
}

/// In whichever order, four bytes are the length field of the length that they
/// announce.
pub proof fn lemma_announced_length_round_trip(field: Seq<u8>, order: ByteOrder)
    requires
        field.len() == 4,
    ensures
        0 <= announced_length(field, order) <= u32::MAX,
        length_field(announced_length(field, order) as u32, order) == field,
{
    match order {
        ByteOrder::BigEndian => {
            lemma_base_256_digits(field[0] as int, field[1] as int, field[2] as int, field[3] as int);
        },
        ByteOrder::LittleEndian => {
            lemma_base_256_digits(field[3] as int, field[2] as int, field[1] as int, field[0] as int);
        },
    }
    assert(length_field(announced_length(field, order) as u32, order) =~= field);
}

/// What the length field of `n` announces to a reader that takes it in the
/// other byte order: the number whose four bytes are those of `n` in reverse.
pub open spec fn byte_swapped(n: u32) -> int {
    little_endian_value(big_endian_bytes(n))
}

/// Whether the four bytes of `n` read the same in both directions. Only for
/// such a length do the two byte orders write the same length field.
pub open spec fn is_symmetric_length(n: u32) -> bool {
    let bytes = big_endian_bytes(n);
    bytes[0] == bytes[3] && bytes[1] == bytes[2]
}

/// A length field that is written in one byte order and read in the other
/// announces the length with its bytes reversed, and that is the length it was
/// written for only if the length is symmetric.
pub proof fn lemma_length_field_cross_order(n: u32, written: ByteOrder, read: ByteOrder)
    requires
        written != read,
    ensures
        announced_length(length_field(n, written), read) == byte_swapped(n),
        0 <= byte_swapped(n) <= u32::MAX,
        byte_swapped(n) == n <==> is_symmetric_length(n),
        length_field(n, written) == length_field(n, read) <==> is_symmetric_length(n),
{
    let big = big_endian_bytes(n);
    lemma_base_256_digits(big[3] as int, big[2] as int, big[1] as int, big[0] as int);
    lemma_base_256_digits(big[0] as int, big[1] as int, big[2] as int, big[3] as int);
    lemma_length_field_round_trip(n, ByteOrder::BigEndian);
    if is_symmetric_length(n) {
        assert(big_endian_bytes(n) =~= little_endian_bytes(n));
    } else {
        assert(big_endian_bytes(n)[0] != little_endian_bytes(n)[0] || big_endian_bytes(n)[1]
            != little_endian_bytes(n)[1]);
    }
}

} // verus!
