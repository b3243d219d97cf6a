//! The stylesheet that gives the HTML renderer's classes their look.
use vstd::prelude::*;

use crate::color::Color;
use crate::text::{decimal, push_decimal};

verus! {

/// The comment and the rules for the text attributes.
pub open spec fn css_header() -> Seq<char> {
    "/* ANSI Color Styles for fromansi HTML output */\n\n"@ + ".bold { font-weight: bold; }\n"@
        + ".italic { font-style: italic; }\n"@ + ".underline { text-decoration: underline; }\n"@
        + ".strikethrough { text-decoration: line-through; }\n"@ + ".dim { opacity: 0.5; }\n"@
        + ".blink { animation: blink 1s infinite; }\n"@
        + "@keyframes blink { 0%, 50% { opacity: 1; } 51%, 100% { opacity: 0; } }\n"@
        + ".reverse { /* Note: reverse is handled by swapping fg/bg in HTML generation */ }\n"@
        + ".hidden { visibility: hidden; }\n\n"@
}

/// The foreground and background rules of one palette index.
pub open spec fn css_color_rules(i: u8) -> Seq<char> {
    ".fg"@ + decimal(i as nat) + " { color: "@ + Color::Indexed(i).hex_spec() + "; }\n"@ + ".bg"@
        + decimal(i as nat) + " { background-color: "@ + Color::Indexed(i).hex_spec() + "; }\n"@
}

/// The rules of the palette indices from `from` up to, not including, `to`.
pub open spec fn css_range(from: nat, to: nat) -> Seq<char>
    decreases to - from,
{
    if to <= from {
        Seq::empty()
    } else {
        css_range(from, (to - 1) as nat) + css_color_rules((to - 1) as u8)
    }
}

/// The whole stylesheet: attributes, then the named colours, the colour cube
/// and the grey ramp, each group followed by a blank line but the last.
pub open spec fn css_spec() -> Seq<char> {
    css_header() + css_range(0, 16) + "\n"@ + css_range(16, 232) + "\n"@ + css_range(232, 256)
}

/// Appends the rules of the palette indices from `from` up to `to`.
fn push_color_rules(css: &mut String, from: u16, to: u16)
    requires
        from <= to <= 256,
    ensures
        final(css)@ == old(css)@ + css_range(from as nat, to as nat),
{
    let mut i: u16 = from;
    while i < to
        invariant
            from <= i <= to <= 256,
            css@ == old(css)@ + css_range(from as nat, i as nat),
        decreases to - i,
    {
        let c = Color::Indexed(i as u8);
        let hex = c.to_hex();
        css.append(".fg");
        push_decimal(css, i as u32);
        css.append(" { color: ");
        css.append(hex.as_str());
        css.append("; }\n");
        css.append(".bg");
        push_decimal(css, i as u32);
        css.append(" { background-color: ");
        css.append(hex.as_str());
        css.append("; }\n");
        assert(css_range(from as nat, (i + 1) as nat) == css_range(from as nat, i as nat)
            + css_color_rules(i as u8));
        assert(css@ =~= old(css)@ + css_range(from as nat, (i + 1) as nat));
        i = i + 1;
    }
}

/// The stylesheet for the classes that the HTML renderer emits.
pub fn generate_css() -> (r: String)
    ensures
        r@ == css_spec(),
{
    let mut css = String::new();
    css.append("/* ANSI Color Styles for fromansi HTML output */\n\n");
    css.append(".bold { font-weight: bold; }\n");
    css.append(".italic { font-style: italic; }\n");
    css.append(".underline { text-decoration: underline; }\n");
    css.append(".strikethrough { text-decoration: line-through; }\n");
    css.append(".dim { opacity: 0.5; }\n");
    css.append(".blink { animation: blink 1s infinite; }\n");
    css.append("@keyframes blink { 0%, 50% { opacity: 1; } 51%, 100% { opacity: 0; } }\n");
    css.append(".reverse { /* Note: reverse is handled by swapping fg/bg in HTML generation */ }\n");
    css.append(".hidden { visibility: hidden; }\n\n");
    assert(css@ =~= css_header());
    push_color_rules(&mut css, 0, 16);
    css.append("\n");
    push_color_rules(&mut css, 16, 232);
    css.append("\n");
    push_color_rules(&mut css, 232, 256);
    assert(css@ =~= css_spec());
    css
}

} // verus!
