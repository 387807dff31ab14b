//! Bit-packed 64-bit simulation cell.
//!
//! Layout (least significant bit first):
//! material 0..9, temperature 10..21, vx 22..25, vy 26..29, lifetime 30..37,
//! variant 38..39, flags 40..47, frame tracker 48..49, rigid source material 50..59,
//! four spare bits 60..63.
use vstd::prelude::*;

verus! {

pub const MATERIAL_BITS: u32 = 10;
pub const TEMPERATURE_BITS: u32 = 12;
pub const VX_BITS: u32 = 4;
pub const VY_BITS: u32 = 4;
pub const LIFETIME_BITS: u32 = 8;
pub const VARIANT_BITS: u32 = 2;
pub const FLAGS_BITS: u32 = 8;
pub const FRAME_BITS: u32 = 2;
pub const RIGID_SOURCE_MAT_BITS: u32 = 10;
pub const SPARE_BITS: u32 = 4;

pub const MAX_MATERIAL_ID: u16 = 1023;
pub const MAX_TEMPERATURE: u16 = 4095;

/// One cell of the world grid, packed into 64 bits.
#[derive(Clone, Copy, PartialEq, Eq, Structural, Hash, Default, Debug)]
pub struct Cell(pub u64);

/// The fields of a [`Cell`] as plain integers (velocity nibbles are the raw 4-bit patterns).
pub struct CellFields {
    pub material: u16,
    pub temperature: u16,
    pub vx_bits: u8,
    pub vy_bits: u8,
    pub lifetime: u8,
    pub variant: u8,
    pub flags: u8,
    pub frame: u8,
    pub rigid_source: u16,
    pub spare: u8,
}

pub open spec fn material_of(b: u64) -> u16 { (b & 0x3FF) as u16 }
pub open spec fn temperature_of(b: u64) -> u16 { ((b & 0x3F_FC00) >> 10u64) as u16 }
pub open spec fn vx_bits_of(b: u64) -> u8 { ((b & 0x3C0_0000) >> 22u64) as u8 }
pub open spec fn vy_bits_of(b: u64) -> u8 { ((b & 0x3C00_0000) >> 26u64) as u8 }
pub open spec fn lifetime_of(b: u64) -> u8 { ((b & 0x3F_C000_0000) >> 30u64) as u8 }
pub open spec fn variant_of(b: u64) -> u8 { ((b & 0xC0_0000_0000) >> 38u64) as u8 }
pub open spec fn flags_of(b: u64) -> u8 { ((b & 0xFF00_0000_0000) >> 40u64) as u8 }
pub open spec fn frame_of(b: u64) -> u8 { ((b & 0x3_0000_0000_0000) >> 48u64) as u8 }
pub open spec fn rigid_source_of(b: u64) -> u16 { ((b & 0x0FFC_0000_0000_0000) >> 50u64) as u16 }
pub open spec fn spare_of(b: u64) -> u8 { (b >> 60u64) as u8 }

pub open spec fn fields_of(b: u64) -> CellFields {
    CellFields {
        material: material_of(b),
        temperature: temperature_of(b),
        vx_bits: vx_bits_of(b),
        vy_bits: vy_bits_of(b),
        lifetime: lifetime_of(b),
        variant: variant_of(b),
        flags: flags_of(b),
        frame: frame_of(b),
        rigid_source: rigid_source_of(b),
        spare: spare_of(b),
    }
}

impl View for Cell {
    type V = CellFields;

    open spec fn view(&self) -> CellFields {
        fields_of(self.0)
    }
}

/// Value of a 4-bit two's-complement pattern (`0..=7` stay, `8..=15` become `-8..=-1`).
pub open spec fn spec_decode_signed_4(n: u8) -> i8 {
    let v = n & 0x0F;
    if v >= 8 { (v - 16) as i8 } else { v as i8 }
}

/// `v` limited to the range a signed nibble can hold.
pub open spec fn clamp_nibble(v: i8) -> i8 {
    if v < -8 { -8i8 } else if v > 7 { 7i8 } else { v }
}

/// 4-bit two's-complement pattern of `clamp_nibble(v)`.
pub open spec fn spec_encode_signed_4(v: i8) -> u8 {
    let c = clamp_nibble(v);
    if c < 0 { (c + 16) as u8 } else { c as u8 }
}

/// One edit of a cell through a setter other than the rigid-source ones.
#[derive(Clone, Copy, Debug)]
pub enum CellEdit {
    Material(u16),
    Temperature(u16),
    VelocityX(i8),
    VelocityY(i8),
    Lifetime(u8),
    Variant(u8),
    Flags(u8),
    OrFlags(u8),
    ClearFlags(u8),
    Frame(u8),
}

/// The fields of a cell after edit `e`, as the setter of that field stores it.
pub open spec fn edited(f: CellFields, e: CellEdit) -> CellFields {
    match e {
        CellEdit::Material(id) => CellFields { material: id & 0x3FF, ..f },
        CellEdit::Temperature(t) => CellFields { temperature: if t > MAX_TEMPERATURE { MAX_TEMPERATURE } else { t }, ..f },
        CellEdit::VelocityX(v) => CellFields { vx_bits: spec_encode_signed_4(v), ..f },
        CellEdit::VelocityY(v) => CellFields { vy_bits: spec_encode_signed_4(v), ..f },
        CellEdit::Lifetime(l) => CellFields { lifetime: l, ..f },
        CellEdit::Variant(v) => CellFields { variant: v & 3, ..f },
        CellEdit::Flags(fl) => CellFields { flags: fl, ..f },
        CellEdit::OrFlags(fl) => CellFields { flags: f.flags | fl, ..f },
        CellEdit::ClearFlags(fl) => CellFields { flags: f.flags & !fl, ..f },
        CellEdit::Frame(fr) => CellFields { frame: fr & 3, ..f },
    }
}

/// The fields of a cell after the edits `es`, in order.
pub open spec fn edited_all(f: CellFields, es: Seq<CellEdit>) -> CellFields
    decreases es.len(),
{
    if es.len() == 0 { f } else { edited(edited_all(f, es.drop_last()), es.last()) }
}

/// Edits `es` leave the rigid-source material of fields `f` as it was.
proof fn lemma_edits_keep_field(f: CellFields, es: Seq<CellEdit>)
    ensures edited_all(f, es).rigid_source == f.rigid_source,
    decreases es.len(),
{
    if es.len() > 0 {
        lemma_edits_keep_field(f, es.drop_last());
    }
}

/// No chain of edits other than the rigid-source setters changes a cell's rigid-source material;
/// in particular every cell built from [`Cell::new`] that way has none (`EMPTY`).
pub proof fn lemma_edits_keep_rigid_source(f: CellFields, es: Seq<CellEdit>)
    ensures
        edited_all(f, es).rigid_source == f.rigid_source,
        edited_all(Cell(0)@, es).rigid_source == 0,
{
    lemma_zero_fields();
    lemma_edits_keep_field(f, es);
    lemma_edits_keep_field(Cell(0)@, es);
}

impl Cell {
    pub open spec fn spec_material(self) -> u16 { self@.material }
    pub open spec fn spec_temperature(self) -> u16 { self@.temperature }
    pub open spec fn spec_velocity_x(self) -> i8 { spec_decode_signed_4(self@.vx_bits) }
    pub open spec fn spec_velocity_y(self) -> i8 { spec_decode_signed_4(self@.vy_bits) }
    pub open spec fn spec_lifetime(self) -> u8 { self@.lifetime }
    pub open spec fn spec_variant(self) -> u8 { self@.variant }
    pub open spec fn spec_flags(self) -> u8 { self@.flags }
    pub open spec fn spec_frame_tracker(self) -> u8 { self@.frame }
    pub open spec fn spec_rigid_source_material(self) -> u16 { self@.rigid_source }

    /// The all-zero cell: empty material, 0 K, no flags.
    pub fn new() -> (c: Self)
        ensures
            c.0 == 0,
            c@ == fields_of(0),
    {
        Cell(0)
    }

    // --- Accessors ---

    pub fn material(self) -> (m: u16)
        ensures m == self@.material, m <= MAX_MATERIAL_ID,
    {
        let b = self.0;
        proof { lemma_field_ranges(b); }
        (b & 0x3FF) as u16
    }

    pub fn temperature(self) -> (t: u16)
        ensures t == self@.temperature, t <= MAX_TEMPERATURE,
    {
        let b = self.0;
        proof { lemma_field_ranges(b); }
        ((b & 0x3F_FC00) >> 10u64) as u16
    }

    pub fn velocity_x(self) -> (v: i8)
        ensures v == self.spec_velocity_x(), -8 <= v <= 7,
    {
        let b = self.0;
        proof { lemma_field_ranges(b); }
        decode_signed_4(((b & 0x3C0_0000) >> 22u64) as u8)
    }

    pub fn velocity_y(self) -> (v: i8)
        ensures v == self.spec_velocity_y(), -8 <= v <= 7,
    {
        let b = self.0;
        proof { lemma_field_ranges(b); }
        decode_signed_4(((b & 0x3C00_0000) >> 26u64) as u8)
    }

    pub fn lifetime(self) -> (l: u8)
        ensures l == self@.lifetime,
    {
        ((self.0 & 0x3F_C000_0000) >> 30u64) as u8
    }

    pub fn variant(self) -> (v: u8)
        ensures v == self@.variant, v <= 3,
    {
        let b = self.0;
        proof { lemma_field_ranges(b); }
        ((b & 0xC0_0000_0000) >> 38u64) as u8
    }

    pub fn flags(self) -> (f: u8)
        ensures f == self@.flags,
    {
        ((self.0 & 0xFF00_0000_0000) >> 40u64) as u8
    }

    pub fn frame_tracker(self) -> (f: u8)
        ensures f == self@.frame, f <= 3,
    {
        let b = self.0;
        proof { lemma_field_ranges(b); }
        ((b & 0x3_0000_0000_0000) >> 48u64) as u8
    }

    /// Material a rigid body cell held before it became a static proxy, kept in spare bits.
    /// Returns 0 (EMPTY) for non-rigid cells.
    pub fn rigid_source_material(self) -> (m: u16)
        ensures m == self@.rigid_source, m <= MAX_MATERIAL_ID,
    {
        let b = self.0;
        proof { lemma_field_ranges(b); }
        ((b & 0x0FFC_0000_0000_0000) >> 50u64) as u16
    }

    // --- Setters (in-place mutation) ---

    pub fn set_material(&mut self, id: u16)
        requires id <= MAX_MATERIAL_ID,
        ensures
            final(self)@ == (CellFields { material: id, ..old(self)@ }),
            final(self)@ == edited(old(self)@, CellEdit::Material(id)),
    {
        proof { assert(id <= 1023 ==> id & 0x3FF == id) by (bit_vector); }
        let b = self.0;
        let nb = (b & !0x3FFu64) | (((id as u64) << 0u64) & 0x3FFu64);
        proof { lemma_put_material(b, id as u64, nb); }
        self.0 = nb;
    }

    /// Stores `min(t, MAX_TEMPERATURE)`.
    pub fn set_temperature(&mut self, t: u16)
        ensures
            final(self)@ == (CellFields {
                temperature: if t > MAX_TEMPERATURE { MAX_TEMPERATURE } else { t },
                ..old(self)@
            }),
            final(self)@ == edited(old(self)@, CellEdit::Temperature(t)),
    {
        let t = if t > MAX_TEMPERATURE { MAX_TEMPERATURE } else { t };
        let b = self.0;
        let nb = (b & !0x3F_FC00u64) | (((t as u64) << 10u64) & 0x3F_FC00u64);
        proof { lemma_put_temperature(b, t as u64, nb); }
        self.0 = nb;
    }

    /// Stores the velocity clamped to `-8..=7`.
    pub fn set_velocity_x(&mut self, vx: i8)
        ensures
            final(self)@ == (CellFields { vx_bits: spec_encode_signed_4(vx), ..old(self)@ }),
            final(self).spec_velocity_x() == clamp_nibble(vx),
            final(self)@ == edited(old(self)@, CellEdit::VelocityX(vx)),
    {
        let nibble = encode_signed_4(vx);
        let b = self.0;
        let nb = (b & !0x3C0_0000u64) | (((nibble as u64) << 22u64) & 0x3C0_0000u64);
        proof {
            lemma_put_vx(b, nibble as u64, nb);
            lemma_nibble_roundtrip(vx);
        }
        self.0 = nb;
    }

    /// Stores the velocity clamped to `-8..=7`.
    pub fn set_velocity_y(&mut self, vy: i8)
        ensures
            final(self)@ == (CellFields { vy_bits: spec_encode_signed_4(vy), ..old(self)@ }),
            final(self).spec_velocity_y() == clamp_nibble(vy),
            final(self)@ == edited(old(self)@, CellEdit::VelocityY(vy)),
    {
        let nibble = encode_signed_4(vy);
        let b = self.0;
        let nb = (b & !0x3C00_0000u64) | (((nibble as u64) << 26u64) & 0x3C00_0000u64);
        proof {
            lemma_put_vy(b, nibble as u64, nb);
            lemma_nibble_roundtrip(vy);
        }
        self.0 = nb;
    }

    pub fn set_lifetime(&mut self, lifetime: u8)
        ensures
            final(self)@ == (CellFields { lifetime: lifetime, ..old(self)@ }),
            final(self)@ == edited(old(self)@, CellEdit::Lifetime(lifetime)),
    {
        let b = self.0;
        let nb = (b & !0x3F_C000_0000u64) | (((lifetime as u64) << 30u64) & 0x3F_C000_0000u64);
        proof { lemma_put_lifetime(b, lifetime as u64, nb); }
        self.0 = nb;
    }

    /// Keeps only the two low bits of `variant`.
    pub fn set_variant(&mut self, variant: u8)
        ensures
            final(self)@ == (CellFields { variant: variant & 3, ..old(self)@ }),
            final(self)@ == edited(old(self)@, CellEdit::Variant(variant)),
    {
        let v = variant & 0b11;
        let b = self.0;
        let nb = (b & !0xC0_0000_0000u64) | (((v as u64) << 38u64) & 0xC0_0000_0000u64);
        proof {
            assert(v < 4) by (bit_vector) requires v == variant & 3u8;
            lemma_put_variant(b, v as u64, nb);
        }
        self.0 = nb;
    }

    pub fn set_flags(&mut self, flags: u8)
        ensures
            final(self)@ == (CellFields { flags: flags, ..old(self)@ }),
            final(self)@ == edited(old(self)@, CellEdit::Flags(flags)),
    {
        let b = self.0;
        let nb = (b & !0xFF00_0000_0000u64) | (((flags as u64) << 40u64) & 0xFF00_0000_0000u64);
        proof { lemma_put_flags(b, flags as u64, nb); }
        self.0 = nb;
    }

    /// Keeps only the two low bits of `frame`.
    pub fn set_frame_tracker(&mut self, frame: u8)
        ensures
            final(self)@ == (CellFields { frame: frame & 3, ..old(self)@ }),
            final(self)@ == edited(old(self)@, CellEdit::Frame(frame)),
    {
        let v = frame & 0b11;
        let b = self.0;
        let nb = (b & !0x3_0000_0000_0000u64) | (((v as u64) << 48u64) & 0x3_0000_0000_0000u64);
        proof {
            assert(v < 4) by (bit_vector) requires v == frame & 3u8;
            lemma_put_frame(b, v as u64, nb);
        }
        self.0 = nb;
    }

    pub fn set_rigid_source_material(&mut self, id: u16)
        requires id <= MAX_MATERIAL_ID,
        ensures final(self)@ == (CellFields { rigid_source: id, ..old(self)@ }),
    {
        let b = self.0;
        let nb = (b & !0x0FFC_0000_0000_0000u64) | (((id as u64) << 50u64) & 0x0FFC_0000_0000_0000u64);
        proof { lemma_put_rigid_source(b, id as u64, nb); }
        self.0 = nb;
    }

    // --- Flag helpers ---

    pub fn has_flag(self, flag: u8) -> (b: bool)
        ensures b == (self@.flags & flag != 0),
    {
        self.flags() & flag != 0
    }

    pub fn or_flags(&mut self, flag: u8)
        ensures
            final(self)@ == (CellFields { flags: old(self)@.flags | flag, ..old(self)@ }),
            final(self)@ == edited(old(self)@, CellEdit::OrFlags(flag)),
    {
        let f = self.flags();
        self.set_flags(f | flag);
    }

    pub fn clear_flag_bits(&mut self, flag: u8)
        ensures
            final(self)@ == (CellFields { flags: old(self)@.flags & !flag, ..old(self)@ }),
            final(self)@ == edited(old(self)@, CellEdit::ClearFlags(flag)),
    {
        let f = self.flags();
        self.set_flags(f & !flag);
    }

    // --- Builder pattern ---

    /// Keeps only the ten low bits of `id`.
    pub fn with_material(self, id: u16) -> (c: Self)
        ensures
            c@ == (CellFields { material: id & 0x3FF, ..self@ }),
            c@ == edited(self@, CellEdit::Material(id)),
    {
        let b = self.0;
        let nb = (b & !0x3FFu64) | (((id as u64) << 0u64) & 0x3FFu64);
        let m = (id & 0x3FF) as u64;
        proof {
            assert(nb == (b & !0x3FFu64) | ((m << 0u64) & 0x3FFu64)
                && m < 1024 && (m as u16) == id & 0x3FF) by (bit_vector)
                requires nb == (b & !0x3FFu64) | (((id as u64) << 0u64) & 0x3FFu64),
                    m == (id & 0x3FF) as u64;
            lemma_put_material(b, m, nb);
        }
        Cell(nb)
    }

    /// Stores `min(t, MAX_TEMPERATURE)`.
    pub fn with_temperature(self, t: u16) -> (c: Self)
        ensures
            c@ == (CellFields {
                temperature: if t > MAX_TEMPERATURE { MAX_TEMPERATURE } else { t },
                ..self@
            }),
            c@ == edited(self@, CellEdit::Temperature(t)),
    {
        let mut c = self;
        c.set_temperature(t);
        c
    }

    pub fn with_velocity_x(self, vx: i8) -> (c: Self)
        ensures
            c@ == (CellFields { vx_bits: spec_encode_signed_4(vx), ..self@ }),
            c.spec_velocity_x() == clamp_nibble(vx),
            c@ == edited(self@, CellEdit::VelocityX(vx)),
    {
        let mut c = self;
        c.set_velocity_x(vx);
        c
    }

    pub fn with_velocity_y(self, vy: i8) -> (c: Self)
        ensures
            c@ == (CellFields { vy_bits: spec_encode_signed_4(vy), ..self@ }),
            c.spec_velocity_y() == clamp_nibble(vy),
            c@ == edited(self@, CellEdit::VelocityY(vy)),
    {
        let mut c = self;
        c.set_velocity_y(vy);
        c
    }

    pub fn with_lifetime(self, lifetime: u8) -> (c: Self)
        ensures
            c@ == (CellFields { lifetime: lifetime, ..self@ }),
            c@ == edited(self@, CellEdit::Lifetime(lifetime)),
    {
        let mut c = self;
        c.set_lifetime(lifetime);
        c
    }

    /// Keeps only the two low bits of `variant`.
    pub fn with_variant(self, variant: u8) -> (c: Self)
        ensures
            c@ == (CellFields { variant: variant & 3, ..self@ }),
            c@ == edited(self@, CellEdit::Variant(variant)),
    {
        let mut c = self;
        c.set_variant(variant);
        c
    }

    pub fn with_flags(self, flags: u8) -> (c: Self)
        ensures
            c@ == (CellFields { flags: flags, ..self@ }),
            c@ == edited(self@, CellEdit::Flags(flags)),
    {
        let mut c = self;
        c.set_flags(flags);
        c
    }

    /// Keeps only the two low bits of `frame`.
    pub fn with_frame_tracker(self, frame: u8) -> (c: Self)
        ensures
            c@ == (CellFields { frame: frame & 3, ..self@ }),
            c@ == edited(self@, CellEdit::Frame(frame)),
    {
        let mut c = self;
        c.set_frame_tracker(frame);
        c
    }

    /// Keeps only the ten low bits of `id`.
    pub fn with_rigid_source_material(self, id: u16) -> (c: Self)
        ensures c@ == (CellFields { rigid_source: id & 0x3FF, ..self@ }),
    {
        let b = self.0;
        let nb = (b & !0x0FFC_0000_0000_0000u64) | (((id as u64) << 50u64) & 0x0FFC_0000_0000_0000u64);
        let m = (id & 0x3FF) as u64;
        proof {
            assert(nb == (b & !0x0FFC_0000_0000_0000u64) | ((m << 50u64) & 0x0FFC_0000_0000_0000u64)
                && m < 1024 && (m as u16) == id & 0x3FF) by (bit_vector)
                requires nb == (b & !0x0FFC_0000_0000_0000u64) | (((id as u64) << 50u64) & 0x0FFC_0000_0000_0000u64),
                    m == (id & 0x3FF) as u64;
            lemma_put_rigid_source(b, m, nb);
        }
        Cell(nb)
    }
}

/// Value of a 4-bit two's-complement pattern.
pub fn decode_signed_4(n: u8) -> (v: i8)
    ensures v == spec_decode_signed_4(n), -8 <= v <= 7,
{
    let v = n & 0x0F;
    proof { assert(v < 16) by (bit_vector) requires v == n & 0x0Fu8; }
    if v >= 8 {
        (v as i8) - 16
    } else {
        v as i8
    }
}

/// 4-bit two's-complement pattern of `v` clamped to `-8..=7`.
pub fn encode_signed_4(v: i8) -> (n: u8)
    ensures n == spec_encode_signed_4(v), n < 16,
{
    let c: i8 = if v < -8 { -8 } else if v > 7 { 7 } else { v };
    if c < 0 {
        (c + 16) as u8
    } else {
        c as u8
    }
}

// --- Laws ---

/// Decoding the stored pattern of a velocity gives back the velocity, clamped to `-8..=7`.
pub proof fn lemma_nibble_roundtrip(v: i8)
    ensures
        spec_decode_signed_4(spec_encode_signed_4(v)) == clamp_nibble(v),
        spec_encode_signed_4(v) < 16,
{
    let n = spec_encode_signed_4(v);
    assert(n & 0x0F == n) by (bit_vector) requires n < 16u8;
}

/// A cell is determined by its fields: two cells with the same fields are the same cell.
pub proof fn lemma_fields_determine_cell(a: Cell, b: Cell)
    requires a@ == b@,
    ensures a == b,
{
    let x = a.0;
    let y = b.0;
    assert(x == y) by (bit_vector)
        requires
            (x & 0x3FF) as u16 == (y & 0x3FF) as u16,
            ((x & 0x3F_FC00) >> 10u64) as u16 == ((y & 0x3F_FC00) >> 10u64) as u16,
            ((x & 0x3C0_0000) >> 22u64) as u8 == ((y & 0x3C0_0000) >> 22u64) as u8,
            ((x & 0x3C00_0000) >> 26u64) as u8 == ((y & 0x3C00_0000) >> 26u64) as u8,
            ((x & 0x3F_C000_0000) >> 30u64) as u8 == ((y & 0x3F_C000_0000) >> 30u64) as u8,
            ((x & 0xC0_0000_0000) >> 38u64) as u8 == ((y & 0xC0_0000_0000) >> 38u64) as u8,
            ((x & 0xFF00_0000_0000) >> 40u64) as u8 == ((y & 0xFF00_0000_0000) >> 40u64) as u8,
            ((x & 0x3_0000_0000_0000) >> 48u64) as u8 == ((y & 0x3_0000_0000_0000) >> 48u64) as u8,
            ((x & 0x0FFC_0000_0000_0000) >> 50u64) as u16 == ((y & 0x0FFC_0000_0000_0000) >> 50u64) as u16,
            (x >> 60u64) as u8 == (y >> 60u64) as u8,
    ;
}

/// The all-zero cell has every field zero.
pub proof fn lemma_zero_fields()
    ensures
        fields_of(0) == (CellFields {
            material: 0, temperature: 0, vx_bits: 0, vy_bits: 0, lifetime: 0, variant: 0,
            flags: 0, frame: 0, rigid_source: 0, spare: 0,
        }),
{
    let z: u64 = 0;
    assert(
        (z & 0x3FF) as u16 == 0 && ((z & 0x3F_FC00) >> 10u64) as u16 == 0
        && ((z & 0x3C0_0000) >> 22u64) as u8 == 0 && ((z & 0x3C00_0000) >> 26u64) as u8 == 0
        && ((z & 0x3F_C000_0000) >> 30u64) as u8 == 0 && ((z & 0xC0_0000_0000) >> 38u64) as u8 == 0
        && ((z & 0xFF00_0000_0000) >> 40u64) as u8 == 0 && ((z & 0x3_0000_0000_0000) >> 48u64) as u8 == 0
        && ((z & 0x0FFC_0000_0000_0000) >> 50u64) as u16 == 0 && (z >> 60u64) as u8 == 0
    ) by (bit_vector) requires z == 0u64;
}

proof fn lemma_field_ranges(b: u64)
    ensures
        material_of(b) <= 1023,
        temperature_of(b) <= 4095,
        vx_bits_of(b) < 16,
        vy_bits_of(b) < 16,
        variant_of(b) < 4,
        frame_of(b) < 4,
        rigid_source_of(b) <= 1023,
        spare_of(b) < 16,
{
    assert(
        ((b & 0x3FF) as u16) <= 1023 && (((b & 0x3F_FC00) >> 10u64) as u16) <= 4095
        && (((b & 0x3C0_0000) >> 22u64) as u8) < 16 && (((b & 0x3C00_0000) >> 26u64) as u8) < 16
        && (((b & 0xC0_0000_0000) >> 38u64) as u8) < 4 && (((b & 0x3_0000_0000_0000) >> 48u64) as u8) < 4
        && (((b & 0x0FFC_0000_0000_0000) >> 50u64) as u16) <= 1023 && ((b >> 60u64) as u8) < 16
    ) by (bit_vector);
}

proof fn lemma_put_material(b: u64, v: u64, nb: u64)
    requires v < 1024, nb == (b & !0x3FFu64) | ((v << 0u64) & 0x3FFu64),
    ensures fields_of(nb) == (CellFields { material: v as u16, ..fields_of(b) }),
{
    assert(
        (nb & 0x3FF) as u16 == v as u16
        && ((nb & 0x3F_FC00) >> 10u64) as u16 == ((b & 0x3F_FC00) >> 10u64) as u16
        && ((nb & 0x3C0_0000) >> 22u64) as u8 == ((b & 0x3C0_0000) >> 22u64) as u8
        && ((nb & 0x3C00_0000) >> 26u64) as u8 == ((b & 0x3C00_0000) >> 26u64) as u8
        && ((nb & 0x3F_C000_0000) >> 30u64) as u8 == ((b & 0x3F_C000_0000) >> 30u64) as u8
        && ((nb & 0xC0_0000_0000) >> 38u64) as u8 == ((b & 0xC0_0000_0000) >> 38u64) as u8
        && ((nb & 0xFF00_0000_0000) >> 40u64) as u8 == ((b & 0xFF00_0000_0000) >> 40u64) as u8
        && ((nb & 0x3_0000_0000_0000) >> 48u64) as u8 == ((b & 0x3_0000_0000_0000) >> 48u64) as u8
        && ((nb & 0x0FFC_0000_0000_0000) >> 50u64) as u16 == ((b & 0x0FFC_0000_0000_0000) >> 50u64) as u16
        && (nb >> 60u64) as u8 == (b >> 60u64) as u8
    ) by (bit_vector)
        requires v < 1024u64, nb == (b & !0x3FFu64) | ((v << 0u64) & 0x3FFu64);
}

proof fn lemma_put_temperature(b: u64, v: u64, nb: u64)
    requires v < 4096, nb == (b & !0x3F_FC00u64) | ((v << 10u64) & 0x3F_FC00u64),
    ensures fields_of(nb) == (CellFields { temperature: v as u16, ..fields_of(b) }),
{
    assert(
        (nb & 0x3FF) as u16 == (b & 0x3FF) as u16
        && ((nb & 0x3F_FC00) >> 10u64) as u16 == v as u16
        && ((nb & 0x3C0_0000) >> 22u64) as u8 == ((b & 0x3C0_0000) >> 22u64) as u8
        && ((nb & 0x3C00_0000) >> 26u64) as u8 == ((b & 0x3C00_0000) >> 26u64) as u8
        && ((nb & 0x3F_C000_0000) >> 30u64) as u8 == ((b & 0x3F_C000_0000) >> 30u64) as u8
        && ((nb & 0xC0_0000_0000) >> 38u64) as u8 == ((b & 0xC0_0000_0000) >> 38u64) as u8
        && ((nb & 0xFF00_0000_0000) >> 40u64) as u8 == ((b & 0xFF00_0000_0000) >> 40u64) as u8
        && ((nb & 0x3_0000_0000_0000) >> 48u64) as u8 == ((b & 0x3_0000_0000_0000) >> 48u64) as u8
        && ((nb & 0x0FFC_0000_0000_0000) >> 50u64) as u16 == ((b & 0x0FFC_0000_0000_0000) >> 50u64) as u16
        && (nb >> 60u64) as u8 == (b >> 60u64) as u8
    ) by (bit_vector)
        requires v < 4096u64, nb == (b & !0x3F_FC00u64) | ((v << 10u64) & 0x3F_FC00u64);
}

proof fn lemma_put_vx(b: u64, v: u64, nb: u64)
    requires v < 16, nb == (b & !0x3C0_0000u64) | ((v << 22u64) & 0x3C0_0000u64),
    ensures fields_of(nb) == (CellFields { vx_bits: v as u8, ..fields_of(b) }),
{
    assert(
        (nb & 0x3FF) as u16 == (b & 0x3FF) as u16
        && ((nb & 0x3F_FC00) >> 10u64) as u16 == ((b & 0x3F_FC00) >> 10u64) as u16
        && ((nb & 0x3C0_0000) >> 22u64) as u8 == v as u8
        && ((nb & 0x3C00_0000) >> 26u64) as u8 == ((b & 0x3C00_0000) >> 26u64) as u8
        && ((nb & 0x3F_C000_0000) >> 30u64) as u8 == ((b & 0x3F_C000_0000) >> 30u64) as u8
        && ((nb & 0xC0_0000_0000) >> 38u64) as u8 == ((b & 0xC0_0000_0000) >> 38u64) as u8
        && ((nb & 0xFF00_0000_0000) >> 40u64) as u8 == ((b & 0xFF00_0000_0000) >> 40u64) as u8
        && ((nb & 0x3_0000_0000_0000) >> 48u64) as u8 == ((b & 0x3_0000_0000_0000) >> 48u64) as u8
        && ((nb & 0x0FFC_0000_0000_0000) >> 50u64) as u16 == ((b & 0x0FFC_0000_0000_0000) >> 50u64) as u16
        && (nb >> 60u64) as u8 == (b >> 60u64) as u8
    ) by (bit_vector)
        requires v < 16u64, nb == (b & !0x3C0_0000u64) | ((v << 22u64) & 0x3C0_0000u64);
}

proof fn lemma_put_vy(b: u64, v: u64, nb: u64)
    requires v < 16, nb == (b & !0x3C00_0000u64) | ((v << 26u64) & 0x3C00_0000u64),
    ensures fields_of(nb) == (CellFields { vy_bits: v as u8, ..fields_of(b) }),
{
    assert(
        (nb & 0x3FF) as u16 == (b & 0x3FF) as u16
        && ((nb & 0x3F_FC00) >> 10u64) as u16 == ((b & 0x3F_FC00) >> 10u64) as u16
        && ((nb & 0x3C0_0000) >> 22u64) as u8 == ((b & 0x3C0_0000) >> 22u64) as u8
        && ((nb & 0x3C00_0000) >> 26u64) as u8 == v as u8
        && ((nb & 0x3F_C000_0000) >> 30u64) as u8 == ((b & 0x3F_C000_0000) >> 30u64) as u8
        && ((nb & 0xC0_0000_0000) >> 38u64) as u8 == ((b & 0xC0_0000_0000) >> 38u64) as u8
        && ((nb & 0xFF00_0000_0000) >> 40u64) as u8 == ((b & 0xFF00_0000_0000) >> 40u64) as u8
        && ((nb & 0x3_0000_0000_0000) >> 48u64) as u8 == ((b & 0x3_0000_0000_0000) >> 48u64) as u8
        && ((nb & 0x0FFC_0000_0000_0000) >> 50u64) as u16 == ((b & 0x0FFC_0000_0000_0000) >> 50u64) as u16
        && (nb >> 60u64) as u8 == (b >> 60u64) as u8
    ) by (bit_vector)
        requires v < 16u64, nb == (b & !0x3C00_0000u64) | ((v << 26u64) & 0x3C00_0000u64);
}

proof fn lemma_put_lifetime(b: u64, v: u64, nb: u64)
    requires v < 256, nb == (b & !0x3F_C000_0000u64) | ((v << 30u64) & 0x3F_C000_0000u64),
    ensures fields_of(nb) == (CellFields { lifetime: v as u8, ..fields_of(b) }),
{
    assert(
        (nb & 0x3FF) as u16 == (b & 0x3FF) as u16
        && ((nb & 0x3F_FC00) >> 10u64) as u16 == ((b & 0x3F_FC00) >> 10u64) as u16
        && ((nb & 0x3C0_0000) >> 22u64) as u8 == ((b & 0x3C0_0000) >> 22u64) as u8
        && ((nb & 0x3C00_0000) >> 26u64) as u8 == ((b & 0x3C00_0000) >> 26u64) as u8
        && ((nb & 0x3F_C000_0000) >> 30u64) as u8 == v as u8
        && ((nb & 0xC0_0000_0000) >> 38u64) as u8 == ((b & 0xC0_0000_0000) >> 38u64) as u8
        && ((nb & 0xFF00_0000_0000) >> 40u64) as u8 == ((b & 0xFF00_0000_0000) >> 40u64) as u8
        && ((nb & 0x3_0000_0000_0000) >> 48u64) as u8 == ((b & 0x3_0000_0000_0000) >> 48u64) as u8
        && ((nb & 0x0FFC_0000_0000_0000) >> 50u64) as u16 == ((b & 0x0FFC_0000_0000_0000) >> 50u64) as u16
        && (nb >> 60u64) as u8 == (b >> 60u64) as u8
    ) by (bit_vector)
        requires v < 256u64, nb == (b & !0x3F_C000_0000u64) | ((v << 30u64) & 0x3F_C000_0000u64);
}

proof fn lemma_put_variant(b: u64, v: u64, nb: u64)
    requires v < 4, nb == (b & !0xC0_0000_0000u64) | ((v << 38u64) & 0xC0_0000_0000u64),
    ensures fields_of(nb) == (CellFields { variant: v as u8, ..fields_of(b) }),
{
    assert(
        (nb & 0x3FF) as u16 == (b & 0x3FF) as u16
        && ((nb & 0x3F_FC00) >> 10u64) as u16 == ((b & 0x3F_FC00) >> 10u64) as u16
        && ((nb & 0x3C0_0000) >> 22u64) as u8 == ((b & 0x3C0_0000) >> 22u64) as u8
        && ((nb & 0x3C00_0000) >> 26u64) as u8 == ((b & 0x3C00_0000) >> 26u64) as u8
        && ((nb & 0x3F_C000_0000) >> 30u64) as u8 == ((b & 0x3F_C000_0000) >> 30u64) as u8
        && ((nb & 0xC0_0000_0000) >> 38u64) as u8 == v as u8
        && ((nb & 0xFF00_0000_0000) >> 40u64) as u8 == ((b & 0xFF00_0000_0000) >> 40u64) as u8
        && ((nb & 0x3_0000_0000_0000) >> 48u64) as u8 == ((b & 0x3_0000_0000_0000) >> 48u64) as u8
        && ((nb & 0x0FFC_0000_0000_0000) >> 50u64) as u16 == ((b & 0x0FFC_0000_0000_0000) >> 50u64) as u16
        && (nb >> 60u64) as u8 == (b >> 60u64) as u8
    ) by (bit_vector)
        requires v < 4u64, nb == (b & !0xC0_0000_0000u64) | ((v << 38u64) & 0xC0_0000_0000u64);
}

proof fn lemma_put_flags(b: u64, v: u64, nb: u64)
    requires v < 256, nb == (b & !0xFF00_0000_0000u64) | ((v << 40u64) & 0xFF00_0000_0000u64),
    ensures fields_of(nb) == (CellFields { flags: v as u8, ..fields_of(b) }),
{
    assert(
        (nb & 0x3FF) as u16 == (b & 0x3FF) as u16
        && ((nb & 0x3F_FC00) >> 10u64) as u16 == ((b & 0x3F_FC00) >> 10u64) as u16
        && ((nb & 0x3C0_0000) >> 22u64) as u8 == ((b & 0x3C0_0000) >> 22u64) as u8
        && ((nb & 0x3C00_0000) >> 26u64) as u8 == ((b & 0x3C00_0000) >> 26u64) as u8
        && ((nb & 0x3F_C000_0000) >> 30u64) as u8 == ((b & 0x3F_C000_0000) >> 30u64) as u8
        && ((nb & 0xC0_0000_0000) >> 38u64) as u8 == ((b & 0xC0_0000_0000) >> 38u64) as u8
        && ((nb & 0xFF00_0000_0000) >> 40u64) as u8 == v as u8
        && ((nb & 0x3_0000_0000_0000) >> 48u64) as u8 == ((b & 0x3_0000_0000_0000) >> 48u64) as u8
        && ((nb & 0x0FFC_0000_0000_0000) >> 50u64) as u16 == ((b & 0x0FFC_0000_0000_0000) >> 50u64) as u16
        && (nb >> 60u64) as u8 == (b >> 60u64) as u8
    ) by (bit_vector)
        requires v < 256u64, nb == (b & !0xFF00_0000_0000u64) | ((v << 40u64) & 0xFF00_0000_0000u64);
}

proof fn lemma_put_frame(b: u64, v: u64, nb: u64)
    requires v < 4, nb == (b & !0x3_0000_0000_0000u64) | ((v << 48u64) & 0x3_0000_0000_0000u64),
    ensures fields_of(nb) == (CellFields { frame: v as u8, ..fields_of(b) }),
{
    assert(
        (nb & 0x3FF) as u16 == (b & 0x3FF) as u16
        && ((nb & 0x3F_FC00) >> 10u64) as u16 == ((b & 0x3F_FC00) >> 10u64) as u16
        && ((nb & 0x3C0_0000) >> 22u64) as u8 == ((b & 0x3C0_0000) >> 22u64) as u8
        && ((nb & 0x3C00_0000) >> 26u64) as u8 == ((b & 0x3C00_0000) >> 26u64) as u8
        && ((nb & 0x3F_C000_0000) >> 30u64) as u8 == ((b & 0x3F_C000_0000) >> 30u64) as u8
        && ((nb & 0xC0_0000_0000) >> 38u64) as u8 == ((b & 0xC0_0000_0000) >> 38u64) as u8
        && ((nb & 0xFF00_0000_0000) >> 40u64) as u8 == ((b & 0xFF00_0000_0000) >> 40u64) as u8
        && ((nb & 0x3_0000_0000_0000) >> 48u64) as u8 == v as u8
        && ((nb & 0x0FFC_0000_0000_0000) >> 50u64) as u16 == ((b & 0x0FFC_0000_0000_0000) >> 50u64) as u16
        && (nb >> 60u64) as u8 == (b >> 60u64) as u8
    ) by (bit_vector)
        requires v < 4u64, nb == (b & !0x3_0000_0000_0000u64) | ((v << 48u64) & 0x3_0000_0000_0000u64);
}

proof fn lemma_put_rigid_source(b: u64, v: u64, nb: u64)
    requires v < 1024, nb == (b & !0x0FFC_0000_0000_0000u64) | ((v << 50u64) & 0x0FFC_0000_0000_0000u64),
    ensures fields_of(nb) == (CellFields { rigid_source: v as u16, ..fields_of(b) }),
{
    assert(
        (nb & 0x3FF) as u16 == (b & 0x3FF) as u16
        && ((nb & 0x3F_FC00) >> 10u64) as u16 == ((b & 0x3F_FC00) >> 10u64) as u16
        && ((nb & 0x3C0_0000) >> 22u64) as u8 == ((b & 0x3C0_0000) >> 22u64) as u8
        && ((nb & 0x3C00_0000) >> 26u64) as u8 == ((b & 0x3C00_0000) >> 26u64) as u8
        && ((nb & 0x3F_C000_0000) >> 30u64) as u8 == ((b & 0x3F_C000_0000) >> 30u64) as u8
        && ((nb & 0xC0_0000_0000) >> 38u64) as u8 == ((b & 0xC0_0000_0000) >> 38u64) as u8
        && ((nb & 0xFF00_0000_0000) >> 40u64) as u8 == ((b & 0xFF00_0000_0000) >> 40u64) as u8
        && ((nb & 0x3_0000_0000_0000) >> 48u64) as u8 == ((b & 0x3_0000_0000_0000) >> 48u64) as u8
        && ((nb & 0x0FFC_0000_0000_0000) >> 50u64) as u16 == v as u16
        && (nb >> 60u64) as u8 == (b >> 60u64) as u8
    ) by (bit_vector)
        requires v < 1024u64, nb == (b & !0x0FFC_0000_0000_0000u64) | ((v << 50u64) & 0x0FFC_0000_0000_0000u64);
}

} // verus!
