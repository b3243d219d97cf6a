//! The two-variant colour model: palette indices and direct RGB.
use vstd::prelude::*;

use crate::text::{hex_byte, hex_digit, push_hex_byte};

verus! {

/// A colour: an index into the 256-entry terminal palette, or direct RGB.
#[derive(Debug, Clone, Copy, PartialEq, Eq, Structural)]
pub enum Color {
    Indexed(u8),
    Rgb(u8, u8, u8),
}

/// The sixteen named colours at the start of the palette.
pub open spec fn standard_rgb(i: u8) -> (u8, u8, u8) {
    match i {
        0 => (0, 0, 0),
        1 => (128, 0, 0),
        2 => (0, 128, 0),
        3 => (128, 128, 0),
        4 => (0, 0, 128),
        5 => (128, 0, 128),
        6 => (0, 128, 128),
        7 => (192, 192, 192),
        8 => (128, 128, 128),
        9 => (255, 0, 0),
        10 => (0, 255, 0),
        11 => (255, 255, 0),
        12 => (0, 0, 255),
        13 => (255, 0, 255),
        14 => (0, 255, 255),
        _ => (255, 255, 255),
    }
}

/// One of the six steps of the colour cube: 0, 51, 102, 153, 204 or 255.
pub open spec fn cube_step(k: int) -> u8 {
    (k * 51) as u8
}

/// Palette entries 16 to 231: a 6x6x6 cube indexed as 16 + 36 r + 6 g + b.
pub open spec fn cube_rgb(i: u8) -> (u8, u8, u8) {
    let c = i - 16;
    (cube_step(c / 36), cube_step((c % 36) / 6), cube_step(c % 6))
}

/// The grey level of palette entries 232 to 255.
pub open spec fn gray_level(i: u8) -> u8 {
    (8 + (i - 232) * 10) as u8
}

/// The RGB value of a palette index.
pub open spec fn indexed_rgb(i: u8) -> (u8, u8, u8) {
    if i < 16 {
        standard_rgb(i)
    } else if i < 232 {
        cube_rgb(i)
    } else {
        (gray_level(i), gray_level(i), gray_level(i))
    }
}

/// `#rrggbb` in lower-case hexadecimal.
pub open spec fn rgb_hex(rgb: (u8, u8, u8)) -> Seq<char> {
    seq!['#'] + hex_byte(rgb.0) + hex_byte(rgb.1) + hex_byte(rgb.2)
}

/// The first palette index, searching upwards from `k`, whose hex form is `hex`.
pub open spec fn palette_match_from(hex: Seq<char>, k: nat) -> Option<u8>
    decreases 256 - k,
{
    if k >= 256 {
        None
    } else if rgb_hex(indexed_rgb(k as u8)) == hex {
        Some(k as u8)
    } else {
        palette_match_from(hex, k + 1)
    }
}

/// The lowest palette index whose hex form is `hex`, if there is one.
pub open spec fn palette_lookup(hex: Seq<char>) -> Option<u8> {
    palette_match_from(hex, 0)
}

impl Color {
    /// The RGB value this colour stands for.
    pub open spec fn rgb_spec(self) -> (u8, u8, u8) {
        match self {
            Color::Indexed(i) => indexed_rgb(i),
            Color::Rgb(r, g, b) => (r, g, b),
        }
    }

    /// The canonical `#rrggbb` form of this colour.
    pub open spec fn hex_spec(self) -> Seq<char> {
        rgb_hex(self.rgb_spec())
    }

    /// The RGB value of this colour; palette indices go through the palette.
    pub fn to_rgb(&self) -> (r: (u8, u8, u8))
        ensures
            r == self.rgb_spec(),
    {
        match self {
            Color::Rgb(r, g, b) => (*r, *g, *b),
            Color::Indexed(idx) => {
                let i = *idx;
                if i < 16 {
                    standard_color(i)
                } else if i < 232 {
                    let c: u8 = i - 16;
                    let r: u8 = (c / 36) * 51;
                    let g: u8 = ((c % 36) / 6) * 51;
                    let b: u8 = (c % 6) * 51;
                    (r, g, b)
                } else {
                    let gray: u8 = 8 + (i - 232) * 10;
                    (gray, gray, gray)
                }
            },
        }
    }

    /// The colour as `#rrggbb`, lower-case hexadecimal.
    pub fn to_hex(&self) -> (r: String)
        ensures
            r@ == self.hex_spec(),
            r@.len() == 7,
            *self is Indexed && self->Indexed_0 < 16 ==> r@ == rgb_hex(
                standard_rgb(self->Indexed_0),
            ),
            *self is Indexed && 16 <= self->Indexed_0 < 232 ==> r@ == rgb_hex(
                (
                    cube_step((self->Indexed_0 - 16) / 36),
                    cube_step(((self->Indexed_0 - 16) % 36) / 6),
                    cube_step((self->Indexed_0 - 16) % 6),
                ),
            ),
            *self is Indexed && 232 <= self->Indexed_0 ==> r@ == rgb_hex(
                (
                    gray_level(self->Indexed_0),
                    gray_level(self->Indexed_0),
                    gray_level(self->Indexed_0),
                ),
            ),
    {
        let (r, g, b) = self.to_rgb();
        let mut out = String::new();
        out.push('#');
        push_hex_byte(&mut out, r);
        push_hex_byte(&mut out, g);
        push_hex_byte(&mut out, b);
        assert(out@ =~= self.hex_spec());
        out
    }

    /// The lowest palette index whose hex form equals this colour's, if any.
    pub fn to_indexed_if_possible(&self) -> (r: Option<u8>)
        ensures
            r == palette_lookup(self.hex_spec()),
    {
        let target = self.to_rgb();
        let ghost hex = self.hex_spec();
        let mut i: u16 = 0;
        while i < 256
            invariant
                i <= 256,
                target == self.rgb_spec(),
                hex == self.hex_spec(),
                palette_lookup(hex) == palette_match_from(hex, i as nat),
            decreases 256 - i,
        {
            let candidate = Color::Indexed(i as u8).to_rgb();
            proof {
                lemma_rgb_hex_injective(candidate, target);
            }
            if candidate.0 == target.0 && candidate.1 == target.1 && candidate.2 == target.2 {
                return Some(i as u8);
            }
            i = i + 1;
        }
        None
    }
}

/// The sixteen named colours, by index.
fn standard_color(i: u8) -> (r: (u8, u8, u8))
    requires
        i < 16,
    ensures
        r == standard_rgb(i),
{
    match i {
        0 => (0, 0, 0),
        1 => (128, 0, 0),
        2 => (0, 128, 0),
        3 => (128, 128, 0),
        4 => (0, 0, 128),
        5 => (128, 0, 128),
        6 => (0, 128, 128),
        7 => (192, 192, 192),
        8 => (128, 128, 128),
        9 => (255, 0, 0),
        10 => (0, 255, 0),
        11 => (255, 255, 0),
        12 => (0, 0, 255),
        13 => (255, 0, 255),
        14 => (0, 255, 255),
        _ => (255, 255, 255),
    }
}

/// Distinct bytes have distinct two-digit hex forms.
pub proof fn lemma_hex_byte_injective(a: u8, b: u8)
    ensures
        hex_byte(a) == hex_byte(b) ==> a == b,
{
    if hex_byte(a) == hex_byte(b) {
        assert(hex_byte(a)[0] == hex_byte(b)[0]);
        assert(hex_byte(a)[1] == hex_byte(b)[1]);
        let (ah, al, bh, bl) = (a as int / 16, a as int % 16, b as int / 16, b as int % 16);
        assert(hex_digit(ah) == hex_digit(bh));
        assert(hex_digit(al) == hex_digit(bl));
        assert(ah == bh);
        assert(al == bl);
    }
}

/// Two RGB values are equal exactly when their hex forms are.
pub proof fn lemma_rgb_hex_injective(x: (u8, u8, u8), y: (u8, u8, u8))
    ensures
        (rgb_hex(x) == rgb_hex(y)) <==> (x == y),
{
    if rgb_hex(x) == rgb_hex(y) {
        assert(rgb_hex(x).subrange(1, 3) =~= hex_byte(x.0));
        assert(rgb_hex(y).subrange(1, 3) =~= hex_byte(y.0));
        assert(rgb_hex(x).subrange(3, 5) =~= hex_byte(x.1));
        assert(rgb_hex(y).subrange(3, 5) =~= hex_byte(y.1));
        assert(rgb_hex(x).subrange(5, 7) =~= hex_byte(x.2));
        assert(rgb_hex(y).subrange(5, 7) =~= hex_byte(y.2));
        lemma_hex_byte_injective(x.0, y.0);
        lemma_hex_byte_injective(x.1, y.1);
        lemma_hex_byte_injective(x.2, y.2);
    }
}

proof fn lemma_match_from_unique(i: u8, k: nat)
    requires
        k <= i,
        forall|j: u8| j < i ==> #[trigger] Color::Indexed(j).hex_spec() != Color::Indexed(i).hex_spec(),
    ensures
        palette_match_from(Color::Indexed(i).hex_spec(), k) == Some(i),
    decreases i - k,
{
    if k < i {
        assert(Color::Indexed(k as u8).hex_spec() != Color::Indexed(i).hex_spec());
        lemma_match_from_unique(i, k + 1);
    }
}

/// Round trip: a palette index whose colour no other index shares is found
/// again by looking up its hex form.
pub proof fn lemma_indexed_round_trip(i: u8)
    requires
        forall|j: u8| j != i ==> #[trigger] Color::Indexed(j).hex_spec() != Color::Indexed(i).hex_spec(),
    ensures
        palette_lookup(Color::Indexed(i).hex_spec()) == Some(i),
{
    lemma_match_from_unique(i, 0);
}

} // verus!
