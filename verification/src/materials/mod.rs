//! Built-in material table: definitions, palettes, and per-id property tables.
//!
//! | Material | Phase @ 293 K | Notes |
//! |----------|---------------|-------|
//! | EMPTY, STONE | — | — |
//! | SAND, DIRT, GRASS, C4, OBSIDIAN, PLANT, WOOD | Solid | Room ~293 K |
//! | RIGID | Solid | Placeholder for dynamic bodies; not paintable |
//! | WAX | Inert solid | Melts ≥ 320 K → melted wax |
//! | MELTED_WAX | Liquid | Freezes ≤ 300 K → wax |
//! | ICE | Inert solid | Melts ≥ 274 K → water |
//! | LIQUID (water) | Liquid | Freezes ≤ 273 K → ice; boils ≥ 373 K → steam |
//! | OIL, ACID | Liquid | Room |
//! | LAVA | Liquid | ~1473 K; freezes ≤ 548 K → obsidian |
//! | GAS, SMOKE | Gas | Room |
//! | STEAM | Gas | Condenses ≤ 372 K → water |
//! | FIRE | Gas | Hot combustion |
//! | EMBER, TORCH, WELL | Inert solid | Props vary |
pub mod defs;
pub mod shared_rules;

use vstd::prelude::*;

use crate::world::{material, MaterialId, MaterialProps, MaterialRule};
use defs::{empty_def, sand_def, liquid_def, gas_def, stone_def, rigid_def, oil_def, fire_def, wax_def, melted_wax_def, c4_def, smoke_def, plant_def, acid_def, ember_def, wood_def, steam_def, lava_def, torch_def, well_def, dirt_def, grass_def, obsidian_def, ice_def, empty_props, sand_props, liquid_props, gas_props, stone_props, rigid_props, oil_props, fire_props, wax_props, melted_wax_props, c4_props, smoke_props, plant_props, acid_props, ember_props, wood_props, steam_props, lava_props, torch_props, well_props, dirt_props, grass_props, obsidian_props, ice_props};

verus! {

/// One built-in material: id, display name, properties, movement rule and ARGB colour.
#[derive(Clone, Copy, Debug)]
pub struct MaterialDef {
    pub id: MaterialId,
    pub name: &'static str,
    pub props: MaterialProps,
    pub rule: MaterialRule,
    pub color_argb: u32,
}

/// Ids of the built-in materials, in table order.
pub open spec fn builtin_ids() -> Seq<u16> {
    seq![0u16, 1u16, 2u16, 3u16, 4u16, 5u16, 8u16, 9u16, 10u16, 26u16, 11u16, 12u16, 13u16, 14u16, 15u16, 16u16, 17u16, 18u16, 19u16, 20u16, 22u16, 23u16, 24u16, 25u16]
}

/// ARGB colour of built-in material `id`, `None` for other ids.
pub open spec fn builtin_color(id: u16) -> Option<u32> {
    match id {
        0 => Some(0xFF000000u32),
        1 => Some(0xFFFFC369u32),
        2 => Some(0xFF3264D2u32),
        3 => Some(0xFFBBBBBBu32),
        4 => Some(0xFF707070u32),
        5 => Some(0xFF8B7355u32),
        8 => Some(0xFF3D2B1Fu32),
        9 => Some(0xFFFF6600u32),
        10 => Some(0xFFF5E6CAu32),
        26 => Some(0xFFE2C9A4u32),
        11 => Some(0xFFC8D8C0u32),
        12 => Some(0xAA888888u32),
        13 => Some(0xFF2D8A3Eu32),
        14 => Some(0xFF6BCC3Au32),
        15 => Some(0xFF7A2E0Au32),
        16 => Some(0xFF5C3D2Eu32),
        17 => Some(0xCCDDEEFFu32),
        18 => Some(0xFFFF3300u32),
        19 => Some(0xFF8B4513u32),
        20 => Some(0xFF4A6B8Au32),
        22 => Some(0xFF6B4226u32),
        23 => Some(0xFF3A7D32u32),
        24 => Some(0xFF1A1A2Eu32),
        25 => Some(0xFF9EC5E8u32),
        _ => None,
    }
}

/// Properties of built-in material `id`, `None` for other ids.
pub open spec fn builtin_material_props(id: u16) -> Option<MaterialProps> {
    match id {
        0 => Some(empty_props()),
        1 => Some(sand_props()),
        2 => Some(liquid_props()),
        3 => Some(gas_props()),
        4 => Some(stone_props()),
        5 => Some(rigid_props()),
        8 => Some(oil_props()),
        9 => Some(fire_props()),
        10 => Some(wax_props()),
        26 => Some(melted_wax_props()),
        11 => Some(c4_props()),
        12 => Some(smoke_props()),
        13 => Some(plant_props()),
        14 => Some(acid_props()),
        15 => Some(ember_props()),
        16 => Some(wood_props()),
        17 => Some(steam_props()),
        18 => Some(lava_props()),
        19 => Some(torch_props()),
        20 => Some(well_props()),
        22 => Some(dirt_props()),
        23 => Some(grass_props()),
        24 => Some(obsidian_props()),
        25 => Some(ice_props()),
        _ => None,
    }
}

/// Lateral spread and miscibility of built-in material `id`, `None` for other ids.
pub open spec fn builtin_rule(id: u16) -> Option<(u8, bool)> {
    match id {
        0 => Some((1u8, true)),
        1 => Some((1u8, false)),
        2 => Some((4u8, true)),
        3 => Some((4u8, true)),
        4 => Some((0u8, false)),
        5 => Some((1u8, false)),
        8 => Some((3u8, true)),
        9 => Some((2u8, true)),
        10 => Some((0u8, false)),
        26 => Some((2u8, false)),
        11 => Some((0u8, false)),
        12 => Some((3u8, true)),
        13 => Some((0u8, false)),
        14 => Some((3u8, true)),
        15 => Some((0u8, false)),
        16 => Some((0u8, false)),
        17 => Some((3u8, true)),
        18 => Some((1u8, true)),
        19 => Some((0u8, false)),
        20 => Some((0u8, false)),
        22 => Some((0u8, false)),
        23 => Some((0u8, false)),
        24 => Some((0u8, false)),
        25 => Some((0u8, false)),
        _ => None,
    }
}

/// The definition at table position `i` agrees with the spec tables.
pub open spec fn def_matches_table(d: MaterialDef, i: int) -> bool {
    &&& d.id == builtin_ids()[i]
    &&& builtin_color(d.id) == Some(d.color_argb)
    &&& builtin_material_props(d.id) == Some(d.props)
    &&& builtin_rule(d.id) == Some((d.rule.lateral_spread, d.rule.miscible))
}

/// All built-in material definitions, in table order.
pub fn builtin_defs() -> (v: Vec<MaterialDef>)
    ensures
        v@.len() == 24,
        forall|i: int| 0 <= i < 24 ==> #[trigger] def_matches_table(v@[i], i),
{
    let mut v: Vec<MaterialDef> = Vec::new();
    v.push(empty_def());
    v.push(sand_def());
    v.push(liquid_def());
    v.push(gas_def());
    v.push(stone_def());
    v.push(rigid_def());
    v.push(oil_def());
    v.push(fire_def());
    v.push(wax_def());
    v.push(melted_wax_def());
    v.push(c4_def());
    v.push(smoke_def());
    v.push(plant_def());
    v.push(acid_def());
    v.push(ember_def());
    v.push(wood_def());
    v.push(steam_def());
    v.push(lava_def());
    v.push(torch_def());
    v.push(well_def());
    v.push(dirt_def());
    v.push(grass_def());
    v.push(obsidian_def());
    v.push(ice_def());
    proof {
        assert forall|i: int| 0 <= i < 24 implies #[trigger] def_matches_table(v@[i], i) by {}
    }
    v
}

/// Ids of the materials offered in player brush palettes: every built-in except RIGID, in table order.
pub open spec fn paintable_ids() -> Seq<u16> {
    seq![0u16, 1, 2, 3, 4, 8, 9, 10, 26, 11, 12, 13, 14, 15, 16, 17, 18, 19, 20, 22, 23, 24, 25]
}

/// Number of materials offered in player brush palettes (every built-in except RIGID).
pub fn paintable_builtin_count() -> (n: usize)
    ensures n == paintable_ids().len(),
{
    let defs = builtin_defs();
    let mut n: usize = 0;
    let mut i: usize = 0;
    while i < defs.len()
        invariant
            defs@.len() == 24,
            forall|k: int| 0 <= k < 24 ==> #[trigger] def_matches_table(defs@[k], k),
            i <= 24,
            n == if i <= 5 { i as int } else { i - 1 },
        decreases 24 - i,
    {
        proof { assert(def_matches_table(defs@[i as int], i as int)); }
        if defs[i].id != material::RIGID {
            n = n + 1;
        }
        i = i + 1;
    }
    n
}

/// The `index`-th paintable built-in (table order, RIGID skipped), `None` past the end.
pub fn paintable_builtin_at(index: usize) -> (r: Option<MaterialDef>)
    ensures
        index < paintable_ids().len() ==> r is Some && r->0.id == paintable_ids()[index as int]
            && def_matches_table(r->0, if index < 5 { index as int } else { index + 1 }),
        index >= paintable_ids().len() ==> r is None,
{
    let defs = builtin_defs();
    let mut seen: usize = 0;
    let mut i: usize = 0;
    while i < defs.len()
        invariant
            defs@.len() == 24,
            forall|k: int| 0 <= k < 24 ==> #[trigger] def_matches_table(defs@[k], k),
            i <= 24,
            seen == if i <= 5 { i as int } else { i - 1 },
            seen <= index,
        decreases 24 - i,
    {
        proof { assert(def_matches_table(defs@[i as int], i as int)); }
        if defs[i].id != material::RIGID {
            if seen == index {
                return Some(defs[i]);
            }
            seen = seen + 1;
        }
        i = i + 1;
    }
    None
}

/// ARGB colour of `id`: the built-in colour, or dark grey for ids without a definition.
pub open spec fn palette_argb_at(id: int) -> u32 {
    match builtin_color(id as u16) {
        Some(c) => c,
        None => 0xFF20_2020u32,
    }
}

/// Bytes `[r, g, b, a]` of an ARGB colour.
pub open spec fn argb_to_rgba(c: u32) -> [u8; 4] {
    [((c >> 16u32) & 0xFF) as u8, ((c >> 8u32) & 0xFF) as u8, (c & 0xFF) as u8, ((c >> 24u32) & 0xFF) as u8]
}

/// RGBA colour of `id`: the built-in colour, or magenta for ids without a definition.
pub open spec fn palette_rgba_at(id: int) -> [u8; 4] {
    match builtin_color(id as u16) {
        Some(c) => argb_to_rgba(c),
        None => [255u8, 0u8, 255u8, 255u8],
    }
}

/// ARGB colour of built-in material `id`, `None` for other ids.
pub fn builtin_color_argb(id: MaterialId) -> (c: Option<u32>)
    ensures c == builtin_color(id),
{
    match id {
        0 => Some(0xFF000000u32),
        1 => Some(0xFFFFC369u32),
        2 => Some(0xFF3264D2u32),
        3 => Some(0xFFBBBBBBu32),
        4 => Some(0xFF707070u32),
        5 => Some(0xFF8B7355u32),
        8 => Some(0xFF3D2B1Fu32),
        9 => Some(0xFFFF6600u32),
        10 => Some(0xFFF5E6CAu32),
        26 => Some(0xFFE2C9A4u32),
        11 => Some(0xFFC8D8C0u32),
        12 => Some(0xAA888888u32),
        13 => Some(0xFF2D8A3Eu32),
        14 => Some(0xFF6BCC3Au32),
        15 => Some(0xFF7A2E0Au32),
        16 => Some(0xFF5C3D2Eu32),
        17 => Some(0xCCDDEEFFu32),
        18 => Some(0xFFFF3300u32),
        19 => Some(0xFF8B4513u32),
        20 => Some(0xFF4A6B8Au32),
        22 => Some(0xFF6B4226u32),
        23 => Some(0xFF3A7D32u32),
        24 => Some(0xFF1A1A2Eu32),
        25 => Some(0xFF9EC5E8u32),
        _ => None,
    }
}

/// Unpacks ARGB into `[r, g, b, a]`.
pub fn argb32_to_rgba(c: u32) -> (r: [u8; 4])
    ensures r == argb_to_rgba(c),
{
    [((c >> 16u32) & 0xFF) as u8, ((c >> 8u32) & 0xFF) as u8, (c & 0xFF) as u8, ((c >> 24u32) & 0xFF) as u8]
}

/// Properties of built-in material `id`, `None` for other ids.
pub fn builtin_def_props(id: MaterialId) -> (p: Option<MaterialProps>)
    ensures p == builtin_material_props(id),
{
    match id {
        0 => Some(empty_def().props),
        1 => Some(sand_def().props),
        2 => Some(liquid_def().props),
        3 => Some(gas_def().props),
        4 => Some(stone_def().props),
        5 => Some(rigid_def().props),
        8 => Some(oil_def().props),
        9 => Some(fire_def().props),
        10 => Some(wax_def().props),
        26 => Some(melted_wax_def().props),
        11 => Some(c4_def().props),
        12 => Some(smoke_def().props),
        13 => Some(plant_def().props),
        14 => Some(acid_def().props),
        15 => Some(ember_def().props),
        16 => Some(wood_def().props),
        17 => Some(steam_def().props),
        18 => Some(lava_def().props),
        19 => Some(torch_def().props),
        20 => Some(well_def().props),
        22 => Some(dirt_def().props),
        23 => Some(grass_def().props),
        24 => Some(obsidian_def().props),
        25 => Some(ice_def().props),
        _ => None,
    }
}

/// Per-id properties: built-in definitions, [`MaterialProps::default`] elsewhere.
pub fn builtin_props() -> (v: Vec<MaterialProps>)
    ensures
        v@.len() == material::MAX_MATERIALS,
        forall|id: int| 0 <= id < 1024 ==> #[trigger] v@[id] == match builtin_material_props(id as u16) {
            Some(p) => p,
            None => MaterialProps::spec_default(),
        },
{
    let mut v: Vec<MaterialProps> = Vec::new();
    let mut i: usize = 0;
    while i < 1024
        invariant
            i <= 1024,
            v@.len() == i,
            forall|id: int| 0 <= id < i ==> #[trigger] v@[id] == match builtin_material_props(id as u16) {
                Some(p) => p,
                None => MaterialProps::spec_default(),
            },
        decreases 1024 - i,
    {
        let p = match builtin_def_props(i as u16) {
            Some(p) => p,
            None => MaterialProps::default_const(),
        };
        v.push(p);
        i = i + 1;
    }
    v
}

/// Per-id movement rules: built-in definitions, [`MaterialRule::default`] elsewhere.
pub fn builtin_rules() -> (v: Vec<MaterialRule>)
    ensures
        v@.len() == material::MAX_MATERIALS,
        forall|id: int| 0 <= id < 1024 ==> #[trigger] rule_fields(v@[id]) == match builtin_rule(id as u16) {
            Some(r) => r,
            None => (1u8, true),
        },
{
    let mut v: Vec<MaterialRule> = Vec::new();
    let mut i: usize = 0;
    while i < 1024
        invariant
            i <= 1024,
            v@.len() == i,
            forall|id: int| 0 <= id < i ==> #[trigger] rule_fields(v@[id]) == match builtin_rule(id as u16) {
                Some(r) => r,
                None => (1u8, true),
            },
        decreases 1024 - i,
    {
        let r = match builtin_rule_of(i as u16) {
            Some((spread, miscible)) => MaterialRule { lateral_spread: spread, miscible },
            None => MaterialRule::default_rule(),
        };
        v.push(r);
        i = i + 1;
    }
    v
}

/// The two fields of a rule as a pair.
pub open spec fn rule_fields(r: MaterialRule) -> (u8, bool) {
    (r.lateral_spread, r.miscible)
}

/// Lateral spread and miscibility of built-in material `id`, `None` for other ids.
pub fn builtin_rule_of(id: MaterialId) -> (r: Option<(u8, bool)>)
    ensures r == builtin_rule(id),
{
    match builtin_def_rule(id) {
        Some(rule) => Some((rule.lateral_spread, rule.miscible)),
        None => None,
    }
}

fn builtin_def_rule(id: MaterialId) -> (r: Option<MaterialRule>)
    ensures
        r is Some <==> builtin_rule(id) is Some,
        r matches Some(rule) ==> builtin_rule(id) == Some((rule.lateral_spread, rule.miscible)),
{
    match id {
        0 => Some(empty_def().rule),
        1 => Some(sand_def().rule),
        2 => Some(liquid_def().rule),
        3 => Some(gas_def().rule),
        4 => Some(stone_def().rule),
        5 => Some(rigid_def().rule),
        8 => Some(oil_def().rule),
        9 => Some(fire_def().rule),
        10 => Some(wax_def().rule),
        26 => Some(melted_wax_def().rule),
        11 => Some(c4_def().rule),
        12 => Some(smoke_def().rule),
        13 => Some(plant_def().rule),
        14 => Some(acid_def().rule),
        15 => Some(ember_def().rule),
        16 => Some(wood_def().rule),
        17 => Some(steam_def().rule),
        18 => Some(lava_def().rule),
        19 => Some(torch_def().rule),
        20 => Some(well_def().rule),
        22 => Some(dirt_def().rule),
        23 => Some(grass_def().rule),
        24 => Some(obsidian_def().rule),
        25 => Some(ice_def().rule),
        _ => None,
    }
}

/// Per-id ARGB palette: built-in colours, dark grey elsewhere.
pub fn builtin_palette_argb() -> (v: Vec<u32>)
    ensures
        v@.len() == material::MAX_MATERIALS,
        forall|id: int| 0 <= id < 1024 ==> #[trigger] v@[id] == palette_argb_at(id),
{
    let mut v: Vec<u32> = Vec::new();
    let mut i: usize = 0;
    while i < 1024
        invariant
            i <= 1024,
            v@.len() == i,
            forall|id: int| 0 <= id < i ==> #[trigger] v@[id] == palette_argb_at(id),
        decreases 1024 - i,
    {
        let c = match builtin_color_argb(i as u16) {
            Some(c) => c,
            None => 0xFF20_2020u32,
        };
        v.push(c);
        i = i + 1;
    }
    v
}

/// Per-id RGBA palette: built-in colours, magenta elsewhere.
pub fn builtin_palette_rgba() -> (v: Vec<[u8; 4]>)
    ensures
        v@.len() == material::MAX_MATERIALS,
        forall|id: int| 0 <= id < 1024 ==> #[trigger] v@[id] == palette_rgba_at(id),
{
    let mut v: Vec<[u8; 4]> = Vec::new();
    let mut i: usize = 0;
    while i < 1024
        invariant
            i <= 1024,
            v@.len() == i,
            forall|id: int| 0 <= id < i ==> #[trigger] v@[id] == palette_rgba_at(id),
        decreases 1024 - i,
    {
        v.push(static_palette_rgba(i as u16));
        i = i + 1;
    }
    v
}

/// RGBA colour of material `m` from the built-in palette.
pub fn static_palette_rgba(m: MaterialId) -> (c: [u8; 4])
    ensures c == palette_rgba_at(m as int),
{
    match builtin_color_argb(m) {
        Some(c) => argb32_to_rgba(c),
        None => [255u8, 0u8, 255u8, 255u8],
    }
}

} // verus!
