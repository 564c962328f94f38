use vstd::prelude::*;

verus! {

/// A 16-byte interface or class identifier, as VST3 lays it out.
pub type TUID = [u8; 16];

/// The four bytes of `x`, most significant first.
pub open spec fn be_bytes(x: u32) -> Seq<u8> {
    seq![(x >> 24) as u8, ((x >> 16) & 0xff) as u8, ((x >> 8) & 0xff) as u8, (x & 0xff) as u8]
}

/// The four bytes of `x`, least significant first.
pub open spec fn le_bytes(x: u32) -> Seq<u8> {
    seq![(x & 0xff) as u8, ((x >> 8) & 0xff) as u8, ((x >> 16) & 0xff) as u8, (x >> 24) as u8]
}

/// The `u32` whose bytes, most significant first, are `b[i..i + 4]`.
pub open spec fn be_u32(b: Seq<u8>, i: int) -> u32 {
    ((b[i] as u32) << 24u32) | ((b[i + 1] as u32) << 16u32) | ((b[i + 2] as u32) << 8u32) | (b[i
        + 3] as u32)
}

/// The `u32` whose bytes, most significant first, are `b0 b1 b2 b3`.
pub fn from_be_bytes(b0: u8, b1: u8, b2: u8, b3: u8) -> (r: u32)
    ensures
        r == ((b0 as u32) << 24u32) | ((b1 as u32) << 16u32) | ((b2 as u32) << 8u32) | (b3 as u32),
{
    ((b0 as u32) << 24u32) | ((b1 as u32) << 16u32) | ((b2 as u32) << 8u32) | (b3 as u32)
}

proof fn lemma_be_round_trip(x: u32)
    ensures
        ((((x >> 24) as u8) as u32) << 24u32) | (((((x >> 16) & 0xff) as u8) as u32) << 16u32) | (((((x
            >> 8) & 0xff) as u8) as u32) << 8u32) | (((x & 0xff) as u8) as u32) == x,
{
    assert(((((x >> 24) as u8) as u32) << 24u32) | (((((x >> 16) & 0xff) as u8) as u32) << 16u32) | (((((x
        >> 8) & 0xff) as u8) as u32) << 8u32) | (((x & 0xff) as u8) as u32) == x) by (bit_vector);
}

proof fn lemma_be_split(b0: u8, b1: u8, b2: u8, b3: u8)
    ensures
        ({
            let x = ((b0 as u32) << 24u32) | ((b1 as u32) << 16u32) | ((b2 as u32) << 8u32) | (b3 as u32);
            &&& (x >> 24) as u8 == b0
            &&& ((x >> 16) & 0xff) as u8 == b1
            &&& ((x >> 8) & 0xff) as u8 == b2
            &&& (x & 0xff) as u8 == b3
        }),
{
    let x = ((b0 as u32) << 24u32) | ((b1 as u32) << 16u32) | ((b2 as u32) << 8u32) | (b3 as u32);
    assert((x >> 24) as u8 == b0 && ((x >> 16) & 0xff) as u8 == b1 && ((x >> 8) & 0xff) as u8 == b2
        && (x & 0xff) as u8 == b3) by (bit_vector)
        requires
            x == ((b0 as u32) << 24u32) | ((b1 as u32) << 16u32) | ((b2 as u32) << 8u32) | (b3 as u32),
    ;
}

/// An interface identifier from its four words, laid out as on platforms other than Windows:
/// each word's bytes most significant first.
pub fn iid(a: u32, b: u32, c: u32, d: u32) -> (r: TUID)
    ensures
        r@ == be_bytes(a) + be_bytes(b) + be_bytes(c) + be_bytes(d),
{
    let r = [
        ((a & 0xFF000000) >> 24) as u8,
        ((a & 0x00FF0000) >> 16) as u8,
        ((a & 0x0000FF00) >> 8) as u8,
        (a & 0x000000FF) as u8,
        ((b & 0xFF000000) >> 24) as u8,
        ((b & 0x00FF0000) >> 16) as u8,
        ((b & 0x0000FF00) >> 8) as u8,
        (b & 0x000000FF) as u8,
        ((c & 0xFF000000) >> 24) as u8,
        ((c & 0x00FF0000) >> 16) as u8,
        ((c & 0x0000FF00) >> 8) as u8,
        (c & 0x000000FF) as u8,
        ((d & 0xFF000000) >> 24) as u8,
        ((d & 0x00FF0000) >> 16) as u8,
        ((d & 0x0000FF00) >> 8) as u8,
        (d & 0x000000FF) as u8,
    ];
    proof {
        lemma_masks(a);
        lemma_masks(b);
        lemma_masks(c);
        lemma_masks(d);
        assert(r@ =~= be_bytes(a) + be_bytes(b) + be_bytes(c) + be_bytes(d));
    }
    r
}

proof fn lemma_masks(x: u32)
    ensures
        ((x & 0xFF000000) >> 24) as u8 == (x >> 24) as u8,
        ((x & 0x00FF0000) >> 16) as u8 == ((x >> 16) & 0xff) as u8,
        ((x & 0x0000FF00) >> 8) as u8 == ((x >> 8) & 0xff) as u8,
        (x & 0x000000FF) as u8 == (x & 0xff) as u8,
{
    assert(((x & 0xFF000000) >> 24) as u8 == (x >> 24) as u8 && ((x & 0x00FF0000) >> 16) as u8 == ((x
        >> 16) & 0xff) as u8 && ((x & 0x0000FF00) >> 8) as u8 == ((x >> 8) & 0xff) as u8) by (bit_vector);
}

/// An interface identifier from its four words, laid out as COM does on Windows: the first
/// word's bytes least significant first, then the two halves of the second word each least
/// significant first, then the last two words most significant first.
pub fn iid_windows(a: u32, b: u32, c: u32, d: u32) -> (r: TUID)
    ensures
        r@ == le_bytes(a) + seq![
            ((b >> 16) & 0xff) as u8,
            (b >> 24) as u8,
            (b & 0xff) as u8,
            ((b >> 8) & 0xff) as u8,
        ] + be_bytes(c) + be_bytes(d),
{
    let r = [
        (a & 0x000000FF) as u8,
        ((a & 0x0000FF00) >> 8) as u8,
        ((a & 0x00FF0000) >> 16) as u8,
        ((a & 0xFF000000) >> 24) as u8,
        ((b & 0x00FF0000) >> 16) as u8,
        ((b & 0xFF000000) >> 24) as u8,
        (b & 0x000000FF) as u8,
        ((b & 0x0000FF00) >> 8) as u8,
        ((c & 0xFF000000) >> 24) as u8,
        ((c & 0x00FF0000) >> 16) as u8,
        ((c & 0x0000FF00) >> 8) as u8,
        (c & 0x000000FF) as u8,
        ((d & 0xFF000000) >> 24) as u8,
        ((d & 0x00FF0000) >> 16) as u8,
        ((d & 0x0000FF00) >> 8) as u8,
        (d & 0x000000FF) as u8,
    ];
    proof {
        lemma_masks(a);
        lemma_masks(b);
        lemma_masks(c);
        lemma_masks(d);
        assert(r@ =~= le_bytes(a) + seq![
            ((b >> 16) & 0xff) as u8,
            (b >> 24) as u8,
            (b & 0xff) as u8,
            ((b >> 8) & 0xff) as u8,
        ] + be_bytes(c) + be_bytes(d));
    }
    r
}

/// A class identifier, as four words.
#[derive(Copy, Clone, PartialEq, Eq, Debug)]
pub struct Uuid(pub u32, pub u32, pub u32, pub u32);

/// The namespace of the version 5 UUIDs derived from plugin names.
pub open spec fn namespace_coupler() -> Seq<u8> {
    seq![
        0xadu8, 0xf0u8, 0x07u8, 0x9fu8, 0x40u8, 0x7fu8, 0x49u8, 0xccu8, 0xb1u8, 0x0du8, 0x2du8,
        0x37u8, 0x63u8, 0x36u8, 0x57u8, 0x58u8,
    ]
}

/// The bytes of the version 5 (SHA-1 based) UUID of `name` in `namespace`.
pub uninterp spec fn uuid_v5(namespace: Seq<u8>, name: Seq<u8>) -> Seq<u8>;

/// Calls `uuid::Uuid::new_v5` on `namespace` and `name` and returns the bytes of the result.
/// The contract names the result by `uuid_v5` and states what the crate's builder sets: the
/// version nibble (5) and the RFC 4122 variant bits.
#[verifier::external_body]
fn new_v5_bytes(namespace: [u8; 16], name: &[u8]) -> (r: [u8; 16])
    ensures
        r@ == uuid_v5(namespace@, name@),
        r@[6] >> 4u8 == 5u8,
        r@[8] & 0xc0u8 == 0x80u8,
{
    *uuid::Uuid::new_v5(&uuid::Uuid::from_bytes(namespace), name).as_bytes()
}

impl Uuid {
    /// The identifier whose words are the bytes of `bytes`, four at a time, most significant
    /// first.
    pub fn from_uuid_bytes(bytes: [u8; 16]) -> (r: Uuid)
        ensures
            r.0 == be_u32(bytes@, 0),
            r.1 == be_u32(bytes@, 4),
            r.2 == be_u32(bytes@, 8),
            r.3 == be_u32(bytes@, 12),
    {
        Uuid(
            from_be_bytes(bytes[0], bytes[1], bytes[2], bytes[3]),
            from_be_bytes(bytes[4], bytes[5], bytes[6], bytes[7]),
            from_be_bytes(bytes[8], bytes[9], bytes[10], bytes[11]),
            from_be_bytes(bytes[12], bytes[13], bytes[14], bytes[15]),
        )
    }

    /// The class identifier of a plugin named `name`: the version 5 UUID of the name's bytes
    /// in the coupler namespace, as four words.
    pub fn from_name(name: &str) -> (r: Uuid)
        ensures
            ({
                let bytes = uuid_v5(namespace_coupler(), vstd::utf8::encode_utf8(name@));
                &&& r.0 == be_u32(bytes, 0)
                &&& r.1 == be_u32(bytes, 4)
                &&& r.2 == be_u32(bytes, 8)
                &&& r.3 == be_u32(bytes, 12)
            }),
    {
        let namespace: [u8; 16] = [
            0xad, 0xf0, 0x07, 0x9f, 0x40, 0x7f, 0x49, 0xcc, 0xb1, 0x0d, 0x2d, 0x37, 0x63, 0x36,
            0x57, 0x58,
        ];
        assert(namespace@ =~= namespace_coupler());
        let bytes = new_v5_bytes(namespace, name.as_bytes());
        Uuid::from_uuid_bytes(bytes)
    }
}

/// The VST3 class identifier of a plugin, laid out as on platforms other than Windows.
pub fn uuid_to_tuid(uuid: &Uuid) -> (r: TUID)
    ensures
        r@ == be_bytes(uuid.0) + be_bytes(uuid.1) + be_bytes(uuid.2) + be_bytes(uuid.3),
{
    iid(uuid.0, uuid.1, uuid.2, uuid.3)
}

/// Splitting 16 bytes into four words and laying those out again gives the bytes back: a
/// plugin's VST3 class identifier is, byte for byte, the UUID derived from its name.
pub proof fn law_tuid_of_uuid_bytes(bytes: Seq<u8>)
    requires
        bytes.len() == 16,
    ensures
        be_bytes(be_u32(bytes, 0)) + be_bytes(be_u32(bytes, 4)) + be_bytes(be_u32(bytes, 8)) + be_bytes(
            be_u32(bytes, 12),
        ) == bytes,
{
    lemma_be_split(bytes[0], bytes[1], bytes[2], bytes[3]);
    lemma_be_split(bytes[4], bytes[5], bytes[6], bytes[7]);
    lemma_be_split(bytes[8], bytes[9], bytes[10], bytes[11]);
    lemma_be_split(bytes[12], bytes[13], bytes[14], bytes[15]);
    assert(be_bytes(be_u32(bytes, 0)) + be_bytes(be_u32(bytes, 4)) + be_bytes(be_u32(bytes, 8)) + be_bytes(
        be_u32(bytes, 12),
    ) =~= bytes);
}

/// Laying four words out and splitting the bytes again gives the words back.
pub proof fn law_uuid_of_tuid_words(a: u32, b: u32, c: u32, d: u32)
    ensures
        ({
            let bytes = be_bytes(a) + be_bytes(b) + be_bytes(c) + be_bytes(d);
            be_u32(bytes, 0) == a && be_u32(bytes, 4) == b && be_u32(bytes, 8) == c && be_u32(
                bytes,
                12,
            ) == d
        }),
{
    lemma_be_round_trip(a);
    lemma_be_round_trip(b);
    lemma_be_round_trip(c);
    lemma_be_round_trip(d);
    let bytes = be_bytes(a) + be_bytes(b) + be_bytes(c) + be_bytes(d);
    assert(bytes[0] == (a >> 24) as u8);
    assert(bytes[4] == (b >> 24) as u8);
    assert(bytes[8] == (c >> 24) as u8);
    assert(bytes[12] == (d >> 24) as u8);
    assert(bytes[5] == ((b >> 16) & 0xff) as u8);
    assert(bytes[15] == (d & 0xff) as u8);
}

} // verus!
