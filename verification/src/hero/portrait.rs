//! Procedural 16x16 hero portraits: a base face, hair tinted in the hero's
//! hair color and a helmet tinted by armor rarity, painted as RGBA bytes.

use vstd::prelude::*;
use vstd::string::StrSliceExecFns;

use crate::equipment::{GearRarity, HeroEquipment};
use crate::rng::random_u32;
use rand::rngs::StdRng;

verus! {

/// An RGB color as bytes.
#[derive(Debug, Clone, Copy, PartialEq, Eq, Structural)]
pub struct Rgb8 {
    pub r: u8,
    pub g: u8,
    pub b: u8,
}

/// How a hero looks: face, hair style and color, and default helmet.
#[derive(Debug, Clone, Copy, PartialEq, Eq, Structural)]
pub struct HeroPortrait {
    pub base_idx: u32,
    pub hair_idx: u32,
    pub hair_color: Rgb8,
    pub gear_idx: u32,
}

/// The hair colors a portrait may get: gold, red, brown, black, silver,
/// blue, purple.
pub open spec fn hair_palette(k: int) -> Rgb8 {
    if k == 0 {
        Rgb8 { r: 229, g: 191, b: 38 }
    } else if k == 1 {
        Rgb8 { r: 191, g: 63, b: 25 }
    } else if k == 2 {
        Rgb8 { r: 89, g: 56, b: 30 }
    } else if k == 3 {
        Rgb8 { r: 25, g: 20, b: 25 }
    } else if k == 4 {
        Rgb8 { r: 165, g: 165, b: 173 }
    } else if k == 5 {
        Rgb8 { r: 38, g: 140, b: 204 }
    } else {
        Rgb8 { r: 191, g: 38, b: 140 }
    }
}

fn hair_color_of(k: u32) -> (c: Rgb8)
    requires
        k < 7,
    ensures
        c == hair_palette(k as int),
{
    if k == 0 {
        Rgb8 { r: 229, g: 191, b: 38 }
    } else if k == 1 {
        Rgb8 { r: 191, g: 63, b: 25 }
    } else if k == 2 {
        Rgb8 { r: 89, g: 56, b: 30 }
    } else if k == 3 {
        Rgb8 { r: 25, g: 20, b: 25 }
    } else if k == 4 {
        Rgb8 { r: 165, g: 165, b: 173 }
    } else if k == 5 {
        Rgb8 { r: 38, g: 140, b: 204 }
    } else {
        Rgb8 { r: 191, g: 38, b: 140 }
    }
}

impl HeroPortrait {
    /// A random portrait: one of four faces, five hair styles and seven hair
    /// colors, with no helmet.
    pub fn random(rng: &mut StdRng) -> (p: HeroPortrait)
        ensures
            p.base_idx < 4,
            p.hair_idx < 5,
            exists|k: int| 0 <= k < 7 && p.hair_color == hair_palette(k),
            p.gear_idx == 0,
    {
        let base_idx = random_u32(rng, 0, 4);
        let hair_idx = random_u32(rng, 0, 5);
        let k = random_u32(rng, 0, 7);
        let hair_color = hair_color_of(k);
        HeroPortrait { base_idx, hair_idx, hair_color, gear_idx: 0 }
    }
}
/// The sprite of base sprite `idx`.
pub open spec fn base_sprite(idx: u32) -> Seq<char> {
    if idx == 1 {
        "......................OOOO.........OOOssssOOO.....OssssssssssO...OsssEsessEsessO.OssssssssssssO...OssssssssssO....OssssOssOssO.....OssssssssO.......OssssssO.........OSSSSO.........OssssssO.......OssssssssO.....OssssssssssO...OssssssssssssO.OOOOOOOOOOOOOOOO"@
    } else if idx == 2 {
        ".....................OOOOOO........OOssssssOO.....OssssssssssO....OsEsessEsessO...OssssssssssO....OssssssssssO....OssssOssOssO.....OssssssssO.......OssssssO.........OSSSSO........OOssssssOO.....OOssssssssOO...OOssssssssssOO..OOOOOOOOOOOOOO................."@
    } else if idx == 3 {
        "......................OOOO..........OOssssOO.......OssssssssO.....OssssssssssO....OsEsessEsessO...OssssssssssO....OssssOssOssO.....OssssssssO.......OssssssO.........OSSSSO.........OssssssO.......OssssssssO.....OssssssssssO...OssssssssssssO.OOOOOOOOOOOOOOOO"@
    } else {
        "......................OOOO..........OOssssOO.......OssssssssO.....OssssssssssO....OsEsessEsessO...OssssssssssO....OssssOssOssO.....OssssssssO.......OssssssO.........OSSSSO.........OssssssO.......OssssssssO.....OssssssssssO...OssssssssssssO.OOOOOOOOOOOOOOOO"@
    }
}

fn base_sprite_of(idx: u32) -> (s: &'static str)
    ensures
        s@ == base_sprite(idx),
{
    if idx == 1 {
        "......................OOOO.........OOOssssOOO.....OssssssssssO...OsssEsessEsessO.OssssssssssssO...OssssssssssO....OssssOssOssO.....OssssssssO.......OssssssO.........OSSSSO.........OssssssO.......OssssssssO.....OssssssssssO...OssssssssssssO.OOOOOOOOOOOOOOOO"
    } else if idx == 2 {
        ".....................OOOOOO........OOssssssOO.....OssssssssssO....OsEsessEsessO...OssssssssssO....OssssssssssO....OssssOssOssO.....OssssssssO.......OssssssO.........OSSSSO........OOssssssOO.....OOssssssssOO...OOssssssssssOO..OOOOOOOOOOOOOO................."
    } else if idx == 3 {
        "......................OOOO..........OOssssOO.......OssssssssO.....OssssssssssO....OsEsessEsessO...OssssssssssO....OssssOssOssO.....OssssssssO.......OssssssO.........OSSSSO.........OssssssO.......OssssssssO.....OssssssssssO...OssssssssssssO.OOOOOOOOOOOOOOOO"
    } else {
        "......................OOOO..........OOssssOO.......OssssssssO.....OssssssssssO....OsEsessEsessO...OssssssssssO....OssssOssOssO.....OssssssssO.......OssssssO.........OSSSSO.........OssssssO.......OssssssssO.....OssssssssssO...OssssssssssssO.OOOOOOOOOOOOOOOO"
    }
}

/// The sprite of hair sprite `idx`.
pub open spec fn hair_sprite(idx: u32) -> Seq<char> {
    if idx == 0 {
        "......OOOO..........OOHHHHOO.......OHHHHHHHHO.....OHHHHHHHHHHO....OHHOOOOOOHHO....OHO......OHO.................................................................................................................................................................."@
    } else if idx == 1 {
        "......OOOO..........OOHHHHOO.......OHHHHHHHHO.....OHHHHHHHHHHO....OHH......OHH....OHH......OHH....OHH......OHH....OHH......OHH....OHH......OHH.....OHH....OHH......OHH....OHH.......OHH..OHH...................................................................."@
    } else if idx == 2 {
        "......OO............OHO..........OHHO.........OHHHHO.......OHHHHHHO......OHHHHHHO......OHH..OHH................................................................................................................................."@
    } else if idx == 3 {
        "..................................................................................................OHH......OHH....OHHHHHHHHHHO....OOHHHHHHHHOO......OHHHHHHO.........OHHHHO...........OHHO......................................................................"@
    } else {
        "................................................................................................................................................................................................................................................................"@
    }
}

fn hair_sprite_of(idx: u32) -> (s: &'static str)
    ensures
        s@ == hair_sprite(idx),
{
    if idx == 0 {
        "......OOOO..........OOHHHHOO.......OHHHHHHHHO.....OHHHHHHHHHHO....OHHOOOOOOHHO....OHO......OHO.................................................................................................................................................................."
    } else if idx == 1 {
        "......OOOO..........OOHHHHOO.......OHHHHHHHHO.....OHHHHHHHHHHO....OHH......OHH....OHH......OHH....OHH......OHH....OHH......OHH....OHH......OHH.....OHH....OHH......OHH....OHH.......OHH..OHH...................................................................."
    } else if idx == 2 {
        "......OO............OHO..........OHHO.........OHHHHO.......OHHHHHHO......OHHHHHHO......OHH..OHH................................................................................................................................."
    } else if idx == 3 {
        "..................................................................................................OHH......OHH....OHHHHHHHHHHO....OOHHHHHHHHOO......OHHHHHHO.........OHHHHO...........OHHO......................................................................"
    } else {
        "................................................................................................................................................................................................................................................................"
    }
}

/// The sprite of gear sprite `idx`.
pub open spec fn gear_sprite(idx: u32) -> Seq<char> {
    if idx == 1 {
        "......OOOO..........OOGGGGOO.......OGGGGGGGGO.....OGGGGGGGGGGO....OGGGOOOOGGGO....OGGGO..OGGGO....OGGGGGGGGGGO....OGGGGGGGGGGO.....OGGGGGGGGO.......OGGGGGGO...................................................................................................."@
    } else if idx == 2 {
        "......OO...........OGGO..........OGGO.........OGGGGO.......OGGGGGGO.....OGGGGGGGO....OGGGGGGGGGO..OOOOOOOOOOOOOO.OGGGGGGGGGO....OGGGGGGGO......................................................................................."@
    } else if idx == 3 {
        "......OOOO..........OOGGGGOO.......OGGGGGGGGO.....OGGGGGGGGGGO....OGG......OGG....OGG......OGG....OGG......OGG....OGGGGGGGGGGO.....OGGGGGGGGO.......OGGGGGGO.........OGGGGO.........OGGGGGGO.......OGGGGGGGGO.....OGGGGGGGGGGO...OGGGGGGGGGGGGO.OOOOOOOOOOOOOOOO"@
    } else if idx == 4 {
        "...O..O..O..O......OGOGOGOGO......OGGGGGGGO......OOOOOOOOO..................................................................................................................................................................................................."@
    } else {
        "................................................................................................................................................................................................................................................................"@
    }
}

fn gear_sprite_of(idx: u32) -> (s: &'static str)
    ensures
        s@ == gear_sprite(idx),
{
    if idx == 1 {
        "......OOOO..........OOGGGGOO.......OGGGGGGGGO.....OGGGGGGGGGGO....OGGGOOOOGGGO....OGGGO..OGGGO....OGGGGGGGGGGO....OGGGGGGGGGGO.....OGGGGGGGGO.......OGGGGGGO...................................................................................................."
    } else if idx == 2 {
        "......OO...........OGGO..........OGGO.........OGGGGO.......OGGGGGGO.....OGGGGGGGO....OGGGGGGGGGO..OOOOOOOOOOOOOO.OGGGGGGGGGO....OGGGGGGGO......................................................................................."
    } else if idx == 3 {
        "......OOOO..........OOGGGGOO.......OGGGGGGGGO.....OGGGGGGGGGGO....OGG......OGG....OGG......OGG....OGG......OGG....OGGGGGGGGGGO.....OGGGGGGGGO.......OGGGGGGO.........OGGGGO.........OGGGGGGO.......OGGGGGGGGO.....OGGGGGGGGGGO...OGGGGGGGGGGGGO.OOOOOOOOOOOOOOOO"
    } else if idx == 4 {
        "...O..O..O..O......OGOGOGOGO......OGGGGGGGO......OOOOOOOOO..................................................................................................................................................................................................."
    } else {
        "................................................................................................................................................................................................................................................................"
    }
}

/// The skin color of a face.
pub open spec fn skin(base: u32) -> (u8, u8, u8) {
    if base == 1 {
        (245, 215, 195)
    } else if base == 2 {
        (215, 155, 115)
    } else if base == 3 {
        (135, 165, 140)
    } else {
        (225, 175, 145)
    }
}

/// The shadowed skin color of a face.
pub open spec fn shadow(base: u32) -> (u8, u8, u8) {
    if base == 1 {
        (195, 165, 145)
    } else if base == 2 {
        (165, 115, 85)
    } else if base == 3 {
        (95, 125, 100)
    } else {
        (175, 125, 95)
    }
}

/// The opaque color a sprite character paints, if it paints: outline,
/// skin, shadow, eye white, iris (red for the undead face), or the tint
/// for hair and gear.
pub open spec fn char_color(c: char, base: u32, tint: Rgb8) -> Option<(u8, u8, u8)> {
    if c == 'O' {
        Some((25, 22, 22))
    } else if c == 's' {
        Some(skin(base))
    } else if c == 'S' {
        Some(shadow(base))
    } else if c == 'E' {
        Some((255, 255, 255))
    } else if c == 'e' {
        if base == 3 { Some((220, 40, 40)) } else { Some((40, 80, 160)) }
    } else if c == 'H' || c == 'G' {
        Some((tint.r, tint.g, tint.b))
    } else {
        None
    }
}

/// Byte `k` of a pixel after a character is painted over `old`.
pub open spec fn paint(c: char, base: u32, tint: Rgb8, k: int, old: u8) -> u8 {
    match char_color(c, base, tint) {
        None => old,
        Some(rgb) => if k == 0 { rgb.0 } else if k == 1 { rgb.1 } else if k == 2 { rgb.2 } else { 255 },
    }
}

/// A sprite without line breaks.
pub open spec fn sprite_chars(s: Seq<char>) -> Seq<char>
    decreases s.len(),
{
    if s.len() == 0 {
        Seq::empty()
    } else {
        let rest = sprite_chars(s.drop_last());
        let c = s.last();
        if c == '\n' || c == '\r' { rest } else { rest.push(c) }
    }
}

/// The pixels after a sprite layer is painted: pixel `i` takes the color of
/// the sprite's `i`-th character, for the first 256 characters.
pub open spec fn layer(pixels: Seq<u8>, sprite: Seq<char>, base: u32, tint: Rgb8) -> Seq<u8> {
    let chars = sprite_chars(sprite);
    Seq::new(pixels.len(), |j: int| if j / 4 < chars.len() && j / 4 < 256 { paint(chars[j / 4], base, tint, j % 4, pixels[j]) } else { pixels[j] })
}

fn color_of(c: char, base: u32, tint: Rgb8) -> (r: Option<(u8, u8, u8)>)
    ensures
        r == char_color(c, base, tint),
{
    if c == 'O' {
        Some((25, 22, 22))
    } else if c == 's' {
        Some(if base == 1 {
            (245, 215, 195)
        } else if base == 2 {
            (215, 155, 115)
        } else if base == 3 {
            (135, 165, 140)
        } else {
            (225, 175, 145)
        })
    } else if c == 'S' {
        Some(if base == 1 {
            (195, 165, 145)
        } else if base == 2 {
            (165, 115, 85)
        } else if base == 3 {
            (95, 125, 100)
        } else {
            (175, 125, 95)
        })
    } else if c == 'E' {
        Some((255, 255, 255))
    } else if c == 'e' {
        if base == 3 { Some((220, 40, 40)) } else { Some((40, 80, 160)) }
    } else if c == 'H' || c == 'G' {
        Some((tint.r, tint.g, tint.b))
    } else {
        None
    }
}

fn strip_line_breaks(s: &str) -> (v: Vec<char>)
    ensures
        v@ == sprite_chars(s@),
{
    let n = s.unicode_len();
    let mut v: Vec<char> = Vec::new();
    let mut i: usize = 0;
    while i < n
        invariant
            n == s@.len(),
            i <= n,
            v@ == sprite_chars(s@.take(i as int)),
        decreases n - i,
    {
        assert(s@.take(i + 1).drop_last() =~= s@.take(i as int));
        let c = s.get_char(i);
        if c != '\n' && c != '\r' {
            v.push(c);
        }
        i += 1;
    }
    assert(s@.take(n as int) =~= s@);
    v
}

/// The number of pixels a sprite paints: its characters without line
/// breaks, at most 256.
pub open spec fn sprite_pixels(sprite: Seq<char>) -> int {
    let n = sprite_chars(sprite).len() as int;
    if n < 256 { n } else { 256 }
}

/// Paint a 16x16 sprite layer over RGBA pixels, in any buffer that holds
/// the pixels the sprite paints; bytes past them are left alone.
pub fn draw_sprite_layer(pixels: &mut Vec<u8>, sprite: &str, tint: Rgb8, base_idx: u32)
    requires
        old(pixels)@.len() >= 4 * sprite_pixels(sprite@),
    ensures
        final(pixels)@ == layer(old(pixels)@, sprite@, base_idx, tint),
{
    let ghost p0 = pixels@;
    let chars = strip_line_breaks(sprite);
    let n: usize = if chars.len() < 256 { chars.len() } else { 256 };
    let mut i: usize = 0;
    while i < n
        invariant
            n <= 256,
            n <= chars@.len(),
            n == chars@.len() || n == 256,
            chars@ == sprite_chars(sprite@),
            i <= n,
            4 * n <= p0.len(),
            pixels@.len() == p0.len(),
            forall|j: int| 0 <= j < p0.len() ==> #[trigger] pixels@[j] == if j / 4 < i { paint(chars@[j / 4], base_idx, tint, j % 4, p0[j]) } else { p0[j] },
        decreases n - i,
    {
        match color_of(chars[i], base_idx, tint) {
            Some((r, g, b)) => {
                let ghost before = pixels@;
                pixels.set(4 * i, r);
                pixels.set(4 * i + 1, g);
                pixels.set(4 * i + 2, b);
                pixels.set(4 * i + 3, 255);
                proof {
                    assert forall|j: int| 0 <= j < p0.len() implies #[trigger] pixels@[j] == if j / 4 < i + 1 { paint(chars@[j / 4], base_idx, tint, j % 4, p0[j]) } else { p0[j] } by {
                        if 4 * i <= j < 4 * i + 4 {
                            assert(j / 4 == i);
                        } else {
                            assert(pixels@[j] == before[j]);
                            if j < 4 * i {
                                assert(j / 4 < i);
                            } else {
                                assert(j / 4 >= i + 1);
                            }
                        }
                    }
                }
            },
            None => {
                proof {
                    assert forall|j: int| 0 <= j < p0.len() implies #[trigger] pixels@[j] == if j / 4 < i + 1 { paint(chars@[j / 4], base_idx, tint, j % 4, p0[j]) } else { p0[j] } by {
                        if 4 * i <= j < 4 * i + 4 {
                            assert(j / 4 == i);
                        } else if j < 4 * i {
                            assert(j / 4 < i);
                        } else {
                            assert(j / 4 >= i + 1);
                        }
                    }
                }
            },
        }
        i += 1;
    }
    proof {
        assert(pixels@ =~= layer(p0, sprite@, base_idx, tint));
    }
}

/// The helmet a portrait shows: none without armor, a crown from armor
/// tier three, else the portrait's own helmet (a knight's when it has
/// none); with no equipment known, the portrait's own.
pub open spec fn shown_gear(p: HeroPortrait, equipment: Option<HeroEquipment>) -> u32 {
    match equipment {
        Some(eq) => if eq.armor_tier == 0 {
            0
        } else if eq.armor_tier >= 3 {
            4
        } else if p.gear_idx == 0 {
            1
        } else {
            p.gear_idx
        },
        None => p.gear_idx,
    }
}

/// The tint of a helmet by armor rarity (white with no equipment known).
pub open spec fn gear_tint(equipment: Option<HeroEquipment>) -> Rgb8 {
    match equipment {
        Some(eq) => match eq.armor_rarity {
            GearRarity::Common => Rgb8 { r: 178, g: 178, b: 183 },
            GearRarity::Uncommon => Rgb8 { r: 51, g: 191, b: 63 },
            GearRarity::Rare => Rgb8 { r: 38, g: 127, b: 216 },
            GearRarity::Epic => Rgb8 { r: 165, g: 38, b: 191 },
            GearRarity::Legendary => Rgb8 { r: 242, g: 114, b: 12 },
        },
        None => Rgb8 { r: 255, g: 255, b: 255 },
    }
}

/// White.
pub open spec fn white() -> Rgb8 {
    Rgb8 { r: 255, g: 255, b: 255 }
}

/// A portrait's pixels: the face, the hair over it, the helmet over both,
/// on a transparent 16x16 RGBA canvas.
pub open spec fn portrait_pixels(p: HeroPortrait, equipment: Option<HeroEquipment>) -> Seq<u8> {
    let blank = Seq::new(1024, |j: int| 0u8);
    let with_face = layer(blank, base_sprite(p.base_idx), p.base_idx, white());
    let with_hair = layer(with_face, hair_sprite(p.hair_idx), p.base_idx, p.hair_color);
    layer(with_hair, gear_sprite(shown_gear(p, equipment)), p.base_idx, gear_tint(equipment))
}

/// Paint a portrait as 16x16 RGBA bytes, row by row.
pub fn composite_portrait(portrait: &HeroPortrait, equipment: Option<&HeroEquipment>) -> (pixels: Vec<u8>)
    ensures
        pixels@ == portrait_pixels(*portrait, match equipment {
            Some(e) => Some(*e),
            None => None,
        }),
{
    let mut pixels: Vec<u8> = Vec::new();
    let mut i: usize = 0;
    while i < 1024
        invariant
            i <= 1024,
            pixels@.len() == i,
            forall|j: int| 0 <= j < i ==> pixels@[j] == 0,
        decreases 1024 - i,
    {
        pixels.push(0);
        i += 1;
    }
    assert(pixels@ =~= Seq::new(1024, |j: int| 0u8));
    let white_tint = Rgb8 { r: 255, g: 255, b: 255 };
    draw_sprite_layer(&mut pixels, base_sprite_of(portrait.base_idx), white_tint, portrait.base_idx);
    draw_sprite_layer(&mut pixels, hair_sprite_of(portrait.hair_idx), portrait.hair_color, portrait.base_idx);
    let gear_idx: u32 = match equipment {
        Some(eq) => if eq.armor_tier == 0 {
            0
        } else if eq.armor_tier >= 3 {
            4
        } else if portrait.gear_idx == 0 {
            1
        } else {
            portrait.gear_idx
        },
        None => portrait.gear_idx,
    };
    let tint = match equipment {
        Some(eq) => match eq.armor_rarity {
            GearRarity::Common => Rgb8 { r: 178, g: 178, b: 183 },
            GearRarity::Uncommon => Rgb8 { r: 51, g: 191, b: 63 },
            GearRarity::Rare => Rgb8 { r: 38, g: 127, b: 216 },
            GearRarity::Epic => Rgb8 { r: 165, g: 38, b: 191 },
            GearRarity::Legendary => Rgb8 { r: 242, g: 114, b: 12 },
        },
        None => white_tint,
    };
    draw_sprite_layer(&mut pixels, gear_sprite_of(gear_idx), tint, portrait.base_idx);
    pixels
}

} // verus!
