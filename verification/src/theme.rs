//! The bench's palette, and which of the wanted type faces a machine has.

use vstd::prelude::*;

use crate::text::string_from;

verus! {

broadcast use vstd::string::group_string_axioms;

/// A colour in the form the drawing code wants it: `COLORREF`, 0x00BBGGRR.
pub type Rgb = u32;

pub open spec fn rgb_of(r: u8, g: u8, b: u8) -> int {
    r as int + g as int * 256 + b as int * 65536
}

/// Packs red, green and blue into a `COLORREF`.
pub fn rgb(r: u8, g: u8, b: u8) -> (c: Rgb)
    ensures
        c == rgb_of(r, g, b),
{
    (r as u32) + (g as u32) * 256 + (b as u32) * 65536
}

/// The bench: one black ground with ink lifted off it, film greys between,
/// and one orange for the operator's hand.
pub struct Palette {
    /// Film base. The whole ground.
    pub ground: Rgb,
    /// The rail the strip runs over, a shade above the base.
    pub band: Rgb,
    /// Grain. One value, scattered, never blended.
    pub speck: Rgb,
    /// Dust and hairs on the print: the few specks that catch light.
    pub dust: Rgb,
    /// One-pixel structure: frame edges, perforation outlines.
    pub edge: Rgb,
    /// Section rules.
    pub rule: Rgb,
    /// Small caps labels and the footer.
    pub dim: Rgb,
    /// Running copy and the small print under a control.
    pub body: Rgb,
    /// Primary copy, values, and the punched state of a control.
    pub ink: Rgb,
    /// Grease pencil. The operator's hand, and nothing else.
    pub accent: Rgb,
}

/// The bench, in one place. There is no light variant.
pub fn palette() -> (p: Palette)
    ensures
        p.ground == rgb_of(0x00, 0x00, 0x00),
        p.band == rgb_of(0x0C, 0x0C, 0x0C),
        p.speck == rgb_of(0x12, 0x12, 0x12),
        p.dust == rgb_of(0x2C, 0x2C, 0x2C),
        p.edge == rgb_of(0x2E, 0x2E, 0x2E),
        p.rule == rgb_of(0x26, 0x26, 0x26),
        p.dim == rgb_of(0x8A, 0x8A, 0x8A),
        p.body == rgb_of(0xC0, 0xC0, 0xC0),
        p.ink == rgb_of(0xFF, 0xFF, 0xFF),
        p.accent == rgb_of(0xFF, 0x6A, 0x13),
{
    Palette {
        ground: rgb(0x00, 0x00, 0x00),
        band: rgb(0x0C, 0x0C, 0x0C),
        speck: rgb(0x12, 0x12, 0x12),
        dust: rgb(0x2C, 0x2C, 0x2C),
        edge: rgb(0x2E, 0x2E, 0x2E),
        rule: rgb(0x26, 0x26, 0x26),
        dim: rgb(0x8A, 0x8A, 0x8A),
        body: rgb(0xC0, 0xC0, 0xC0),
        ink: rgb(0xFF, 0xFF, 0xFF),
        accent: rgb(0xFF, 0x6A, 0x13),
    }
}

/// The first wanted face the machine has; the last wanted one when it has
/// none of them, and `Segoe UI` when nothing is wanted.
pub open spec fn pick_face_of(wanted: Seq<Seq<char>>, present: Seq<bool>) -> Seq<char>
    decreases wanted.len(),
{
    if wanted.len() == 0 {
        "Segoe UI"@
    } else if present.len() > 0 && present[0] {
        wanted[0]
    } else if wanted.len() == 1 {
        wanted[0]
    } else {
        pick_face_of(wanted.drop_first(), present.drop_first())
    }
}

/// First face in `wanted` that this machine actually has; `present[i]` is
/// whether it has `wanted[i]`. Windows silently substitutes a missing face,
/// so the presence check is the point.
pub fn pick_face(wanted: &Vec<&str>, present: &Vec<bool>) -> (face: String)
    requires
        present@.len() == wanted@.len(),
    ensures
        face@ == pick_face_of(wanted@.map_values(|s: &str| s@), present@),
{
    let ghost names = wanted@.map_values(|s: &str| s@);
    let mut i: usize = 0;
    assert(names.skip(0) =~= names);
    assert(present@.skip(0) =~= present@);
    while i < wanted.len()
        invariant
            present@.len() == wanted@.len(),
            names == wanted@.map_values(|s: &str| s@),
            0 <= i <= wanted@.len(),
            forall|j: int| 0 <= j < i ==> !present@[j],
            pick_face_of(names, present@) == if i == wanted@.len() && i > 0 {
                names[i - 1]
            } else {
                pick_face_of(names.skip(i as int), present@.skip(i as int))
            },
        decreases wanted@.len() - i,
    {
        if present[i] {
            proof {
                assert(names.skip(i as int)[0] == names[i as int]);
            }
            return string_from(wanted[i]);
        }
        proof {
            let n = names.skip(i as int);
            let p = present@.skip(i as int);
            assert(n.drop_first() =~= names.skip(i + 1));
            assert(p.drop_first() =~= present@.skip(i + 1));
            if n.len() == 1 {
                assert(n[0] == names[i as int]);
            }
        }
        i += 1;
    }
    if wanted.len() == 0 {
        return string_from("Segoe UI");
    }
    string_from(wanted[wanted.len() - 1])
}

} // verus!
