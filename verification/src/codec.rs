//! Equipment identifier bit-packing.
//!
//! An equipment identifier (model, color variation, slot type, optional
//! class restriction) is packed into a single `i32` so that equipment sets
//! are cheap to store and compare. The layout, little end first: bits 0-15
//! hold the model id, bits 16-23 the color, bits 24-27 the slot type and
//! bits 28-31 the class plus one, with 0 reserved for "no class".

use vstd::prelude::*;

verus! {

/// An equipment identifier in its structured form.
#[derive(Clone, Copy, Debug, PartialEq, Eq, Hash)]
pub struct EquipIdent {
    /// The model id of the item.
    pub model_id: u16,
    /// The color variation of the item.
    pub color: u8,
    /// The equipment slot type; the game uses codes 1 through 10.
    pub typ: u8,
    /// The class restriction, if the item has one.
    pub class: Option<u8>,
}

impl EquipIdent {
    /// The ranges the packed layout can represent: the slot type must fit
    /// in four bits and the class, shifted up by one, must too.
    pub open spec fn valid(self) -> bool {
        &&& self.typ < 16
        &&& match self.class {
            Option::None => true,
            Option::Some(c) => c < 15,
        }
    }
}

/// The class field's four-bit code: class plus one, 0 for "no class".
pub open spec fn spec_class_code(class: Option<u8>) -> u32 {
    match class {
        Option::None => 0u32,
        Option::Some(c) => (c + 1) as u32,
    }
}

/// The packed form of `ident`, before the sign-preserving cast to `i32`.
pub open spec fn spec_pack_bits(ident: EquipIdent) -> u32 {
    (ident.model_id as u32) | ((ident.color as u32) << 16) | ((ident.typ as u32) << 24)
        | (spec_class_code(ident.class) << 28)
}

/// The packed form of `ident` as stored: the packed bits reinterpreted as
/// a signed 32-bit integer.
pub open spec fn spec_compress(ident: EquipIdent) -> i32 {
    spec_pack_bits(ident) as i32
}

/// The structured form read back from a packed value.
pub open spec fn spec_decompress(v: i32) -> EquipIdent {
    let u = v as u32;
    EquipIdent {
        model_id: (u & 0xFFFF) as u16,
        color: ((u >> 16) & 0xFF) as u8,
        typ: ((u >> 24) & 0xF) as u8,
        class: if (u >> 28) & 0xF == 0 {
            Option::None
        } else {
            Option::Some((((u >> 28) & 0xF) - 1) as u8)
        },
    }
}

/// Packs an equipment identifier into a single `i32`.
pub fn compress_ident(ident: EquipIdent) -> (r: i32)
    requires
        ident.valid(),
    ensures
        r == spec_compress(ident),
{
    let code: u32 = match ident.class {
        Option::None => 0,
        Option::Some(c) => c as u32 + 1,
    };
    let packed: u32 = (ident.model_id as u32) | ((ident.color as u32) << 16)
        | ((ident.typ as u32) << 24) | (code << 28);
    packed as i32
}

/// Unpacks a packed equipment identifier.
pub fn decompress_ident(v: i32) -> (r: EquipIdent)
    ensures
        r == spec_decompress(v),
        r.valid(),
{
    let u = v as u32;
    proof {
        assert(u & 0xFFFF < 0x10000 && (u >> 16) & 0xFF < 0x100 && (u >> 24) & 0xF < 0x10 && (u
            >> 28) & 0xF < 0x10) by (bit_vector);
    }
    let code: u8 = ((u >> 28) & 0xF) as u8;
    let r = EquipIdent {
        model_id: (u & 0xFFFF) as u16,
        color: ((u >> 16) & 0xFF) as u8,
        typ: ((u >> 24) & 0xF) as u8,
        class: if code == 0 {
            Option::None
        } else {
            Option::Some(code - 1)
        },
    };
    proof {
        lemma_unpack_valid(v);
    }
    r
}

/// Each four-bit or wider field read back from the packed bits is in range.
proof fn lemma_unpack_valid(v: i32)
    ensures
        spec_decompress(v).valid(),
        (v as u32 >> 28) & 0xF == 0 ==> spec_decompress(v).class is None,
{
    let u = v as u32;
    assert((u >> 24) & 0xF < 16 && (u >> 28) & 0xF < 16 && ((u >> 28) & 0xF != 0 ==> (u >> 28)
        & 0xF >= 1)) by (bit_vector);
}

/// Unpacking inverts packing field by field, at the bit level.
proof fn lemma_pack_unpack_bits(m: u16, c: u8, t: u8, k: u8)
    requires
        t < 16,
        k < 16,
    ensures
        ({
            let p = (m as u32) | ((c as u32) << 16) | ((t as u32) << 24) | ((k as u32) << 28);
            &&& p as i32 as u32 == p
            &&& (p & 0xFFFF) == m
            &&& ((p >> 16) & 0xFF) == c
            &&& ((p >> 24) & 0xF) == t
            &&& ((p >> 28) & 0xF) == k
        }),
{
    assert(({
        let p = (m as u32) | ((c as u32) << 16) | ((t as u32) << 24) | ((k as u32) << 28);
        &&& p as i32 as u32 == p
        &&& (p & 0xFFFF) == m
        &&& ((p >> 16) & 0xFF) == c
        &&& ((p >> 24) & 0xF) == t
        &&& ((p >> 28) & 0xF) == k
    })) by (bit_vector)
        requires
            t < 16,
            k < 16,
    ;
}

/// The codec is a round trip: unpacking a packed identifier gives back the
/// identifier, for every identifier in the valid domain.
pub proof fn lemma_ident_round_trip(ident: EquipIdent)
    requires
        ident.valid(),
    ensures
        spec_decompress(spec_compress(ident)) == ident,
{
    let k = spec_class_code(ident.class);
    assert(k < 16);
    lemma_pack_unpack_bits(ident.model_id, ident.color, ident.typ, k as u8);
}

/// The packing is collision-free: two valid identifiers that pack to the
/// same value are the same identifier.
pub proof fn lemma_ident_injective(a: EquipIdent, b: EquipIdent)
    requires
        a.valid(),
        b.valid(),
        spec_compress(a) == spec_compress(b),
    ensures
        a == b,
{
    lemma_ident_round_trip(a);
    lemma_ident_round_trip(b);
}

} // verus!
