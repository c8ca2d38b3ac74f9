//! Material index to RGB lookup: the default PDMS palette plus the per-file COLR
//! overrides loaded by the parser's pre-scan.
use std::collections::HashMap;
use vstd::prelude::*;

verus! {

/// The first block of the default palette (indices 1..=32, repeated at 33..=64).
pub open spec fn base_palette() -> Seq<u32> {
    seq![
        0x000000u32, 0xcc0000, 0xed9900, 0xcccc00, 0x00cc00, 0x00eded, 0x0000cc, 0xdd00dd,
        0xcc2b2b, 0xffffff, 0xf97f70, 0xbfbfbf, 0xa8a8a8, 0x8c668c, 0xf4f4f4, 0x8e236b,
        0x00ff7f, 0xf4ddb2, 0xedc933, 0x4775ff, 0xede8aa, 0xed1189, 0x238e23, 0xffa500,
        0xedede0, 0xed7521, 0x4782b5, 0xffffff, 0x2d2d4f, 0x00007f, 0xcc919e, 0xcc5b44,
    ]
}

/// The named colours of the default palette (indices 206..=255).
pub open spec fn named_palette() -> Seq<u32> {
    seq![
        0x000000u32, 0xffffff, 0xf4f4f4, 0xedede0, 0xa8a8a8, 0xbfbfbf, 0x518c8c, 0x2d4f4f,
        0xcc0000, 0xff0000, 0xcc5b44, 0xff6347, 0x8c668c, 0xed1189, 0xcc919e, 0xf97f70,
        0xed9900, 0xffa500, 0xff7f00, 0x8e236b, 0xcccc00, 0xedc933, 0xededd1, 0xede8aa,
        0x99cc33, 0x00ff7f, 0x00cc00, 0x238e23, 0x2d4f2d, 0x00eded, 0x00bfcc, 0x75edc6,
        0x0000cc, 0x4775ff, 0x00007f, 0xafe0e5, 0x2d2d4f, 0x4782b5, 0x330066, 0x660099,
        0xed82ed, 0xdd00dd, 0xf4f4db, 0xf4ddb2, 0xdb9370, 0xf4a55e, 0xcc2b2b, 0x9e9e5e,
        0xed7521, 0x8c4414,
    ]
}

/// Whether the default palette defines index `id`.
pub open spec fn in_default_palette(id: u32) -> bool {
    (1 <= id <= 64) || (206 <= id <= 255)
}

/// The default palette's colour of index `id` (meaningful where it is defined).
pub open spec fn default_color(id: u32) -> u32 {
    if 1 <= id <= 32 {
        base_palette()[id - 1]
    } else if 33 <= id <= 64 {
        base_palette()[id - 33]
    } else {
        named_palette()[id - 206]
    }
}

/// The default palette as a map.
pub open spec fn default_palette() -> Map<u32, u32> {
    Map::new(|id: u32| in_default_palette(id), |id: u32| default_color(id))
}

/// The colour returned for an index that no entry defines (white).
pub open spec fn fallback_color() -> u32 {
    0xffffff
}

/// Material index to packed `0x00RRGGBB` colour.
pub struct ColorStore {
    pub map: HashMap<u32, u32>,
}

impl ColorStore {
    /// The entries of the store.
    pub open spec fn entries(&self) -> Map<u32, u32> {
        self.map@
    }

    /// The colour that `get` resolves for `id`.
    pub open spec fn color_of(&self, id: u32) -> u32 {
        if self.entries().contains_key(id) {
            self.entries()[id]
        } else {
            fallback_color()
        }
    }

    /// A store holding exactly the default palette.
    pub fn new() -> (s: ColorStore)
        ensures
            s.entries() == default_palette(),
    {
        broadcast use vstd::std_specs::hash::group_hash_axioms;
        let base: [u32; 32] = [
            0x000000, 0xcc0000, 0xed9900, 0xcccc00, 0x00cc00, 0x00eded, 0x0000cc, 0xdd00dd,
            0xcc2b2b, 0xffffff, 0xf97f70, 0xbfbfbf, 0xa8a8a8, 0x8c668c, 0xf4f4f4, 0x8e236b,
            0x00ff7f, 0xf4ddb2, 0xedc933, 0x4775ff, 0xede8aa, 0xed1189, 0x238e23, 0xffa500,
            0xedede0, 0xed7521, 0x4782b5, 0xffffff, 0x2d2d4f, 0x00007f, 0xcc919e, 0xcc5b44,
        ];
        let named: [u32; 50] = [
            0x000000, 0xffffff, 0xf4f4f4, 0xedede0, 0xa8a8a8, 0xbfbfbf, 0x518c8c, 0x2d4f4f,
            0xcc0000, 0xff0000, 0xcc5b44, 0xff6347, 0x8c668c, 0xed1189, 0xcc919e, 0xf97f70,
            0xed9900, 0xffa500, 0xff7f00, 0x8e236b, 0xcccc00, 0xedc933, 0xededd1, 0xede8aa,
            0x99cc33, 0x00ff7f, 0x00cc00, 0x238e23, 0x2d4f2d, 0x00eded, 0x00bfcc, 0x75edc6,
            0x0000cc, 0x4775ff, 0x00007f, 0xafe0e5, 0x2d2d4f, 0x4782b5, 0x330066, 0x660099,
            0xed82ed, 0xdd00dd, 0xf4f4db, 0xf4ddb2, 0xdb9370, 0xf4a55e, 0xcc2b2b, 0x9e9e5e,
            0xed7521, 0x8c4414,
        ];
        assert(base@ == base_palette());
        assert(named@ == named_palette());
        let mut m: HashMap<u32, u32> = HashMap::new();
        let mut id: u32 = 1;
        while id <= 64
            invariant
                1 <= id <= 65,
                base@ == base_palette(),
                forall|k: u32| #[trigger] m@.contains_key(k) <==> 1 <= k < id,
                forall|k: u32| 1 <= k < id ==> #[trigger] m@[k] == default_color(k),
            decreases 65 - id,
        {
            let v = if id <= 32 { base[(id - 1) as usize] } else { base[(id - 33) as usize] };
            m.insert(id, v);
            id += 1;
        }
        let mut id: u32 = 206;
        while id <= 255
            invariant
                206 <= id <= 256,
                named@ == named_palette(),
                forall|k: u32| #[trigger] m@.contains_key(k) <==> (1 <= k <= 64 || 206 <= k < id),
                forall|k: u32| (1 <= k <= 64 || 206 <= k < id) ==> #[trigger] m@[k] == default_color(k),
            decreases 256 - id,
        {
            m.insert(id, named[(id - 206) as usize]);
            id += 1;
        }
        assert(m@ == default_palette());
        ColorStore { map: m }
    }

    /// The colour of material index `id`; white where no entry defines it.
    pub fn get(&self, id: u32) -> (r: u32)
        ensures
            r == self.color_of(id),
    {
        broadcast use vstd::std_specs::hash::group_hash_axioms;
        match self.map.get(&id) {
            Some(v) => *v,
            None => 0xffffff,
        }
    }

    /// Defines (or redefines) the colour of index `id`.
    pub fn insert(&mut self, id: u32, rgb: u32)
        ensures
            final(self).entries() == old(self).entries().insert(id, rgb),
    {
        broadcast use vstd::std_specs::hash::group_hash_axioms;
        self.map.insert(id, rgb);
    }
}

/// A colour defined by `insert` is what `get` returns afterwards, and every other
/// index keeps its colour.
pub proof fn law_insert_then_get(before: ColorStore, after: ColorStore, id: u32, rgb: u32, other: u32)
    requires
        after.entries() == before.entries().insert(id, rgb),
    ensures
        after.color_of(id) == rgb,
        other != id ==> after.color_of(other) == before.color_of(other),
{
}

/// A fresh store resolves every index of the default palette to its palette colour
/// and every other index to white.
pub proof fn law_fresh_store_colors(s: ColorStore, id: u32)
    requires
        s.entries() == default_palette(),
    ensures
        in_default_palette(id) ==> s.color_of(id) == default_color(id),
        !in_default_palette(id) ==> s.color_of(id) == fallback_color(),
{
}

/// The default palette is the PDMS table: each index with its colour.
pub proof fn law_default_palette_table()
    ensures
        forall|id: u32| #[trigger] default_palette().contains_key(id) <==> (1 <= id <= 64 || 206 <= id <= 255),
        default_palette().contains_key(1u32) && default_palette()[1u32] == 0x000000,
        default_palette().contains_key(2u32) && default_palette()[2u32] == 0xcc0000,
        default_palette().contains_key(3u32) && default_palette()[3u32] == 0xed9900,
        default_palette().contains_key(4u32) && default_palette()[4u32] == 0xcccc00,
        default_palette().contains_key(5u32) && default_palette()[5u32] == 0x00cc00,
        default_palette().contains_key(6u32) && default_palette()[6u32] == 0x00eded,
        default_palette().contains_key(7u32) && default_palette()[7u32] == 0x0000cc,
        default_palette().contains_key(8u32) && default_palette()[8u32] == 0xdd00dd,
        default_palette().contains_key(9u32) && default_palette()[9u32] == 0xcc2b2b,
        default_palette().contains_key(10u32) && default_palette()[10u32] == 0xffffff,
        default_palette().contains_key(11u32) && default_palette()[11u32] == 0xf97f70,
        default_palette().contains_key(12u32) && default_palette()[12u32] == 0xbfbfbf,
        default_palette().contains_key(13u32) && default_palette()[13u32] == 0xa8a8a8,
        default_palette().contains_key(14u32) && default_palette()[14u32] == 0x8c668c,
        default_palette().contains_key(15u32) && default_palette()[15u32] == 0xf4f4f4,
        default_palette().contains_key(16u32) && default_palette()[16u32] == 0x8e236b,
        default_palette().contains_key(17u32) && default_palette()[17u32] == 0x00ff7f,
        default_palette().contains_key(18u32) && default_palette()[18u32] == 0xf4ddb2,
        default_palette().contains_key(19u32) && default_palette()[19u32] == 0xedc933,
        default_palette().contains_key(20u32) && default_palette()[20u32] == 0x4775ff,
        default_palette().contains_key(21u32) && default_palette()[21u32] == 0xede8aa,
        default_palette().contains_key(22u32) && default_palette()[22u32] == 0xed1189,
        default_palette().contains_key(23u32) && default_palette()[23u32] == 0x238e23,
        default_palette().contains_key(24u32) && default_palette()[24u32] == 0xffa500,
        default_palette().contains_key(25u32) && default_palette()[25u32] == 0xedede0,
        default_palette().contains_key(26u32) && default_palette()[26u32] == 0xed7521,
        default_palette().contains_key(27u32) && default_palette()[27u32] == 0x4782b5,
        default_palette().contains_key(28u32) && default_palette()[28u32] == 0xffffff,
        default_palette().contains_key(29u32) && default_palette()[29u32] == 0x2d2d4f,
        default_palette().contains_key(30u32) && default_palette()[30u32] == 0x00007f,
        default_palette().contains_key(31u32) && default_palette()[31u32] == 0xcc919e,
        default_palette().contains_key(32u32) && default_palette()[32u32] == 0xcc5b44,
        default_palette().contains_key(33u32) && default_palette()[33u32] == 0x000000,
        default_palette().contains_key(34u32) && default_palette()[34u32] == 0xcc0000,
        default_palette().contains_key(35u32) && default_palette()[35u32] == 0xed9900,
        default_palette().contains_key(36u32) && default_palette()[36u32] == 0xcccc00,
        default_palette().contains_key(37u32) && default_palette()[37u32] == 0x00cc00,
        default_palette().contains_key(38u32) && default_palette()[38u32] == 0x00eded,
        default_palette().contains_key(39u32) && default_palette()[39u32] == 0x0000cc,
        default_palette().contains_key(40u32) && default_palette()[40u32] == 0xdd00dd,
        default_palette().contains_key(41u32) && default_palette()[41u32] == 0xcc2b2b,
        default_palette().contains_key(42u32) && default_palette()[42u32] == 0xffffff,
        default_palette().contains_key(43u32) && default_palette()[43u32] == 0xf97f70,
        default_palette().contains_key(44u32) && default_palette()[44u32] == 0xbfbfbf,
        default_palette().contains_key(45u32) && default_palette()[45u32] == 0xa8a8a8,
        default_palette().contains_key(46u32) && default_palette()[46u32] == 0x8c668c,
        default_palette().contains_key(47u32) && default_palette()[47u32] == 0xf4f4f4,
        default_palette().contains_key(48u32) && default_palette()[48u32] == 0x8e236b,
        default_palette().contains_key(49u32) && default_palette()[49u32] == 0x00ff7f,
        default_palette().contains_key(50u32) && default_palette()[50u32] == 0xf4ddb2,
        default_palette().contains_key(51u32) && default_palette()[51u32] == 0xedc933,
        default_palette().contains_key(52u32) && default_palette()[52u32] == 0x4775ff,
        default_palette().contains_key(53u32) && default_palette()[53u32] == 0xede8aa,
        default_palette().contains_key(54u32) && default_palette()[54u32] == 0xed1189,
        default_palette().contains_key(55u32) && default_palette()[55u32] == 0x238e23,
        default_palette().contains_key(56u32) && default_palette()[56u32] == 0xffa500,
        default_palette().contains_key(57u32) && default_palette()[57u32] == 0xedede0,
        default_palette().contains_key(58u32) && default_palette()[58u32] == 0xed7521,
        default_palette().contains_key(59u32) && default_palette()[59u32] == 0x4782b5,
        default_palette().contains_key(60u32) && default_palette()[60u32] == 0xffffff,
        default_palette().contains_key(61u32) && default_palette()[61u32] == 0x2d2d4f,
        default_palette().contains_key(62u32) && default_palette()[62u32] == 0x00007f,
        default_palette().contains_key(63u32) && default_palette()[63u32] == 0xcc919e,
        default_palette().contains_key(64u32) && default_palette()[64u32] == 0xcc5b44,
        default_palette().contains_key(206u32) && default_palette()[206u32] == 0x000000,
        default_palette().contains_key(207u32) && default_palette()[207u32] == 0xffffff,
        default_palette().contains_key(208u32) && default_palette()[208u32] == 0xf4f4f4,
        default_palette().contains_key(209u32) && default_palette()[209u32] == 0xedede0,
        default_palette().contains_key(210u32) && default_palette()[210u32] == 0xa8a8a8,
        default_palette().contains_key(211u32) && default_palette()[211u32] == 0xbfbfbf,
        default_palette().contains_key(212u32) && default_palette()[212u32] == 0x518c8c,
        default_palette().contains_key(213u32) && default_palette()[213u32] == 0x2d4f4f,
        default_palette().contains_key(214u32) && default_palette()[214u32] == 0xcc0000,
        default_palette().contains_key(215u32) && default_palette()[215u32] == 0xff0000,
        default_palette().contains_key(216u32) && default_palette()[216u32] == 0xcc5b44,
        default_palette().contains_key(217u32) && default_palette()[217u32] == 0xff6347,
        default_palette().contains_key(218u32) && default_palette()[218u32] == 0x8c668c,
        default_palette().contains_key(219u32) && default_palette()[219u32] == 0xed1189,
        default_palette().contains_key(220u32) && default_palette()[220u32] == 0xcc919e,
        default_palette().contains_key(221u32) && default_palette()[221u32] == 0xf97f70,
        default_palette().contains_key(222u32) && default_palette()[222u32] == 0xed9900,
        default_palette().contains_key(223u32) && default_palette()[223u32] == 0xffa500,
        default_palette().contains_key(224u32) && default_palette()[224u32] == 0xff7f00,
        default_palette().contains_key(225u32) && default_palette()[225u32] == 0x8e236b,
        default_palette().contains_key(226u32) && default_palette()[226u32] == 0xcccc00,
        default_palette().contains_key(227u32) && default_palette()[227u32] == 0xedc933,
        default_palette().contains_key(228u32) && default_palette()[228u32] == 0xededd1,
        default_palette().contains_key(229u32) && default_palette()[229u32] == 0xede8aa,
        default_palette().contains_key(230u32) && default_palette()[230u32] == 0x99cc33,
        default_palette().contains_key(231u32) && default_palette()[231u32] == 0x00ff7f,
        default_palette().contains_key(232u32) && default_palette()[232u32] == 0x00cc00,
        default_palette().contains_key(233u32) && default_palette()[233u32] == 0x238e23,
        default_palette().contains_key(234u32) && default_palette()[234u32] == 0x2d4f2d,
        default_palette().contains_key(235u32) && default_palette()[235u32] == 0x00eded,
        default_palette().contains_key(236u32) && default_palette()[236u32] == 0x00bfcc,
        default_palette().contains_key(237u32) && default_palette()[237u32] == 0x75edc6,
        default_palette().contains_key(238u32) && default_palette()[238u32] == 0x0000cc,
        default_palette().contains_key(239u32) && default_palette()[239u32] == 0x4775ff,
        default_palette().contains_key(240u32) && default_palette()[240u32] == 0x00007f,
        default_palette().contains_key(241u32) && default_palette()[241u32] == 0xafe0e5,
        default_palette().contains_key(242u32) && default_palette()[242u32] == 0x2d2d4f,
        default_palette().contains_key(243u32) && default_palette()[243u32] == 0x4782b5,
        default_palette().contains_key(244u32) && default_palette()[244u32] == 0x330066,
        default_palette().contains_key(245u32) && default_palette()[245u32] == 0x660099,
        default_palette().contains_key(246u32) && default_palette()[246u32] == 0xed82ed,
        default_palette().contains_key(247u32) && default_palette()[247u32] == 0xdd00dd,
        default_palette().contains_key(248u32) && default_palette()[248u32] == 0xf4f4db,
        default_palette().contains_key(249u32) && default_palette()[249u32] == 0xf4ddb2,
        default_palette().contains_key(250u32) && default_palette()[250u32] == 0xdb9370,
        default_palette().contains_key(251u32) && default_palette()[251u32] == 0xf4a55e,
        default_palette().contains_key(252u32) && default_palette()[252u32] == 0xcc2b2b,
        default_palette().contains_key(253u32) && default_palette()[253u32] == 0x9e9e5e,
        default_palette().contains_key(254u32) && default_palette()[254u32] == 0xed7521,
        default_palette().contains_key(255u32) && default_palette()[255u32] == 0x8c4414,
{
    assert(base_palette().len() == 32 && named_palette().len() == 50);
}

} // verus!
