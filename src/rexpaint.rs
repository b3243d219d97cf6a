//! Conversions between styled text and the cell grid, and from the grid back
//! to ANSI text.
use vstd::prelude::*;

use codepage_437::CP437_WINGDINGS;

use crate::color::Color;
use crate::document::{docs_view, runs_text, split_lines_spec, Style, StyledText};
use crate::grid::{blank_cell, blank_row, XpCell, XpColor, XpFile, XpLayer};
use crate::text::{chars_of, decimal, push_decimal};

verus! {

/// Names the character that `CP437_WINGDINGS.decode` gives for a byte.
pub uninterp spec fn cp437_decoding(b: u8) -> char;

/// Names the byte that `CP437_WINGDINGS.encode` gives for a character, if any.
pub uninterp spec fn cp437_encoding(c: char) -> Option<u8>;

/// Relies on codepage_437's `Cp437Dialect::decode` for `CP437_WINGDINGS`: a
/// lookup in a fixed 256-entry table, total and depending on the byte alone.
#[verifier::external_body]
fn cp437_decode(b: u8) -> (r: char)
    ensures
        r == cp437_decoding(b),
{
    CP437_WINGDINGS.decode(b)
}

/// Relies on codepage_437's `Cp437Dialect::encode` for `CP437_WINGDINGS`: the
/// byte for a character when the code page has one, `None` otherwise; a fixed
/// mapping that depends on the character alone.
#[verifier::external_body]
fn cp437_encode(c: char) -> (r: Option<u8>)
    ensures
        r == cp437_encoding(c),
{
    CP437_WINGDINGS.encode(c)
}

/// A line break, which a cell cannot show.
pub open spec fn is_line_break(c: char) -> bool {
    c == '\n' || c == '\r'
}

/// The glyph for a character given what the code page made of it (of a space,
/// for a line break): that byte, else 32 for a line break and 63 (`?`) otherwise.
pub open spec fn glyph_from(c: char, encoded: Option<u8>) -> u32 {
    match encoded {
        Some(b) => b as u32,
        None => if is_line_break(c) {
            32
        } else {
            63
        },
    }
}

/// The glyph that a character is drawn with.
pub open spec fn glyph_of(c: char) -> u32 {
    if is_line_break(c) {
        glyph_from(c, cp437_encoding(' '))
    } else {
        glyph_from(c, cp437_encoding(c))
    }
}

/// The glyph for `c` from the code page's answer `encoded`.
pub fn glyph_from_encoding(c: char, encoded: Option<u8>) -> (r: u32)
    ensures
        r == glyph_from(c, encoded),
{
    match encoded {
        Some(b) => b as u32,
        None => if c == '\n' || c == '\r' {
            32
        } else {
            63
        },
    }
}

/// The glyph for a character: its code-page byte, a blank for a line break,
/// `?` when the code page lacks it.
pub fn encode_char(c: char) -> (r: u32)
    ensures
        r == glyph_of(c),
{
    if c == '\n' || c == '\r' {
        glyph_from_encoding(c, cp437_encode(' '))
    } else {
        glyph_from_encoding(c, cp437_encode(c))
    }
}

/// The cell colour for a colour: its RGB value.
pub open spec fn xp_color_of(c: Color) -> XpColor {
    XpColor { r: c.rgb_spec().0, g: c.rgb_spec().1, b: c.rgb_spec().2 }
}

/// The cell colour for a colour slot, `dflt` when it is unset.
pub open spec fn slot_color(c: Option<Color>, dflt: XpColor) -> XpColor {
    match c {
        Some(c) => xp_color_of(c),
        None => dflt,
    }
}

/// Opaque white, the foreground where a run sets none.
pub open spec fn default_fg() -> XpColor {
    XpColor { r: 255, g: 255, b: 255 }
}

/// Opaque black, the background where a run sets none.
pub open spec fn default_bg() -> XpColor {
    XpColor { r: 0, g: 0, b: 0 }
}

/// The cells a run covers: blank for hidden text, else one glyph per
/// character in the effective colours.
pub open spec fn run_cells(t: Seq<char>, st: Style) -> Seq<XpCell> {
    if st.hidden {
        Seq::new(t.len(), |i: int| blank_cell())
    } else {
        Seq::new(
            t.len(),
            |i: int|
                XpCell {
                    ch: glyph_of(t[i]),
                    fg: slot_color(st.effective_colors().0, default_fg()),
                    bg: slot_color(st.effective_colors().1, default_bg()),
                },
        )
    }
}

/// The cells of a line from its first column on.
pub open spec fn line_cells(line: Seq<(Seq<char>, Style)>) -> Seq<XpCell>
    decreases line.len(),
{
    if line.len() == 0 {
        Seq::empty()
    } else {
        line_cells(line.drop_last()) + run_cells(line.last().0, line.last().1)
    }
}

/// A count, limited to what a `usize` holds.
pub open spec fn capped(n: nat) -> nat {
    if n <= usize::MAX {
        n
    } else {
        usize::MAX as nat
    }
}

/// The largest character count of the lines.
pub open spec fn max_line_width(lines: Seq<Seq<(Seq<char>, Style)>>) -> nat
    decreases lines.len(),
{
    if lines.len() == 0 {
        0
    } else {
        let w = capped(runs_text(lines.last()).len());
        let m = max_line_width(lines.drop_last());
        if w > m {
            w
        } else {
            m
        }
    }
}

/// The grid width for these lines: the longest line, at least 1.
pub open spec fn grid_width(lines: Seq<Seq<(Seq<char>, Style)>>) -> nat {
    if max_line_width(lines) == 0 {
        1
    } else {
        max_line_width(lines)
    }
}

/// The grid height for these lines: their number, at least 1.
pub open spec fn grid_height(lines: Seq<Seq<(Seq<char>, Style)>>) -> nat {
    if lines.len() == 0 {
        1
    } else {
        lines.len()
    }
}

/// The cell at column `x` of row `y`.
pub open spec fn grid_cell(lines: Seq<Seq<(Seq<char>, Style)>>, x: int, y: int) -> XpCell {
    if 0 <= y < lines.len() && 0 <= x < line_cells(lines[y]).len() {
        line_cells(lines[y])[x]
    } else {
        blank_cell()
    }
}

/// The number of characters on a line, hidden runs included.
fn calculate_line_width(line: &StyledText) -> (r: usize)
    ensures
        r == capped(runs_text(line@).len()),
{
    let mut total: usize = 0;
    let mut k: usize = 0;
    while k < line.segments.len()
        invariant
            k <= line.segments.len(),
            total == capped(runs_text(line@.take(k as int)).len()),
        decreases line.segments.len() - k,
    {
        let ghost t = line@.take(k as int + 1);
        assert(t.drop_last() =~= line@.take(k as int));
        let n = chars_of(line.segments[k].text.as_str()).len();
        total = total.saturating_add(n);
        k = k + 1;
    }
    assert(line@.take(line.segments.len() as int) =~= line@);
    total
}

/// The cell colour of a colour: its RGB value.
pub fn color_to_xp_color(c: &Color) -> (r: XpColor)
    ensures
        r == xp_color_of(*c),
{
    let (r, g, b) = c.to_rgb();
    XpColor::new(r, g, b)
}

fn slot_to_xp_color(c: Option<Color>, dflt: XpColor) -> (r: XpColor)
    ensures
        r == slot_color(c, dflt),
{
    match c {
        Some(c) => color_to_xp_color(&c),
        None => dflt,
    }
}

/// The row of `width` cells for one line.
fn render_line(line: &StyledText, width: usize) -> (row: Vec<XpCell>)
    ensures
        row@.len() == width,
        forall|x: int|
            0 <= x < width ==> row@[x] == if x < line_cells(line@).len() {
                line_cells(line@)[x]
            } else {
                blank_cell()
            },
{
    let mut row = blank_row(width);
    let mut x: usize = 0;
    let mut k: usize = 0;
    while k < line.segments.len()
        invariant
            k <= line.segments.len(),
            row@.len() == width,
            ({
                let cells = line_cells(line@.take(k as int));
                &&& x == cells.len() || (x >= width && cells.len() >= width)
                &&& forall|q: int|
                    0 <= q < width ==> row@[q] == if q < cells.len() {
                        cells[q]
                    } else {
                        blank_cell()
                    }
            }),
        decreases line.segments.len() - k,
    {
        let seg = &line.segments[k];
        let ghost before = line_cells(line@.take(k as int));
        let ghost t = line@.take(k as int + 1);
        let ghost added = run_cells(seg.text@, seg.style);
        proof {
            assert(t.drop_last() =~= line@.take(k as int));
            assert(t.last() == seg@);
            assert(line_cells(t) == before + added);
        }
        let chars = chars_of(seg.text.as_str());
        let n = chars.len();
        if seg.style.hidden {
            x = x.saturating_add(n);
        } else if x < width {
            let (fg, bg) = seg.style.effective_fg_bg();
            let fgc = slot_to_xp_color(fg, XpColor::new(255, 255, 255));
            let bgc = slot_to_xp_color(bg, XpColor::new(0, 0, 0));
            let ghost o = x as int;
            let mut j: usize = 0;
            while j < n && x < width
                invariant
                    j <= n,
                    n == chars@.len(),
                    chars@ == seg.text@,
                    !seg.style.hidden,
                    o == before.len(),
                    x == o + j,
                    row@.len() == width,
                    fgc == slot_color(seg.style.effective_colors().0, default_fg()),
                    bgc == slot_color(seg.style.effective_colors().1, default_bg()),
                    added == run_cells(seg.text@, seg.style),
                    forall|q: int|
                        0 <= q < width ==> row@[q] == if q < o {
                            before[q]
                        } else if q < o + j {
                            added[q - o]
                        } else {
                            blank_cell()
                        },
                decreases n - j,
            {
                let cell = XpCell { ch: encode_char(chars[j]), fg: fgc, bg: bgc };
                row.set(x, cell);
                x = x + 1;
                j = j + 1;
            }
        }
        proof {
            let cells = before + added;
            assert forall|q: int| 0 <= q < width implies row@[q] == if q < cells.len() {
                cells[q]
            } else {
                blank_cell()
            } by {
                if q >= before.len() && q < cells.len() && seg.style.hidden {
                    assert(added[q - before.len()] == blank_cell());
                }
            }
        }
        k = k + 1;
    }
    assert(line@.take(line.segments.len() as int) =~= line@);
    row
}

impl StyledText {
    /// The document drawn into a grid of one layer. The grid is as high as
    /// the document has lines and as wide as its longest line (hidden runs
    /// count); a run with no colour set draws white on black, reverse video
    /// swaps the colours, hidden runs leave their cells blank, and a character
    /// the code page lacks is drawn as `?`.
    pub fn to_rexpaint(&self) -> (r: XpFile)
        ensures
            r.wf(),
            r.layers@.len() == 1,
            r.layers@[0].width == grid_width(split_lines_spec(self@)),
            r.layers@[0].height == grid_height(split_lines_spec(self@)),
            forall|x: int, y: int|
                0 <= x < r.layers@[0].width && 0 <= y < r.layers@[0].height ==> r.layers@[0].cell(
                    x,
                    y,
                ) == grid_cell(split_lines_spec(self@), x, y),
    {
        let lines = self.split_lines();
        let ghost lv = split_lines_spec(self@);
        let height: usize = if lines.len() == 0 {
            1
        } else {
            lines.len()
        };
        let mut widest: usize = 0;
        let mut k: usize = 0;
        while k < lines.len()
            invariant
                k <= lines.len(),
                docs_view(lines@) == lv,
                widest == max_line_width(lv.take(k as int)),
            decreases lines.len() - k,
        {
            let ghost t = lv.take(k as int + 1);
            assert(t.drop_last() =~= lv.take(k as int));
            assert(t.last() == lines@[k as int]@);
            let w = calculate_line_width(&lines[k]);
            if w > widest {
                widest = w;
            }
            k = k + 1;
        }
        assert(lv.take(lines.len() as int) =~= lv);
        let width: usize = if widest == 0 {
            1
        } else {
            widest
        };
        let mut cells: Vec<Vec<XpCell>> = Vec::new();
        let mut y: usize = 0;
        while y < height
            invariant
                y <= height,
                height == grid_height(lv),
                width == grid_width(lv),
                docs_view(lines@) == lv,
                cells@.len() == y,
                forall|q: int| 0 <= q < y ==> #[trigger] cells@[q]@.len() == width,
                forall|x: int, q: int|
                    0 <= x < width && 0 <= q < y ==> cells@[q]@[x] == grid_cell(lv, x, q),
            decreases height - y,
        {
            if y < lines.len() {
                assert(lines@[y as int]@ == lv[y as int]);
                cells.push(render_line(&lines[y], width));
            } else {
                cells.push(blank_row(width));
            }
            y = y + 1;
        }
        let layer = XpLayer { width, height, cells };
        let layers = vec![layer];
        XpFile { layers }
    }
}

/// The character a cell shows: a blank for glyph 0, else the code page's
/// character for the glyph's low byte.
pub open spec fn cell_char(cell: XpCell) -> char {
    if cell.ch != 0 {
        cp437_decoding((cell.ch % 256) as u8)
    } else {
        ' '
    }
}

/// One cell as ANSI text showing `c`: a direct foreground, a direct background
/// unless it is transparent, the character, and a reset.
pub open spec fn cell_ansi(cell: XpCell, c: char) -> Seq<char> {
    "\x1b[38;2;"@ + decimal(cell.fg.r as nat) + ";"@ + decimal(cell.fg.g as nat) + ";"@ + decimal(
        cell.fg.b as nat,
    ) + if cell.bg.transparent_spec() {
        Seq::empty()
    } else {
        ";48;2;"@ + decimal(cell.bg.r as nat) + ";"@ + decimal(cell.bg.g as nat) + ";"@ + decimal(
            cell.bg.b as nat,
        )
    } + "m"@ + seq![c] + "\x1b[0m"@
}

/// The ANSI text of a row of cells, left to right.
pub open spec fn row_ansi(row: Seq<XpCell>) -> Seq<char>
    decreases row.len(),
{
    if row.len() == 0 {
        Seq::empty()
    } else {
        row_ansi(row.drop_last()) + cell_ansi(row.last(), cell_char(row.last()))
    }
}

/// The rows of a layer, top to bottom.
pub open spec fn layer_rows(layer: XpLayer) -> Seq<Seq<XpCell>> {
    layer.cells@.map_values(|r: Vec<XpCell>| r@)
}

/// The ANSI text of rows, each ended by a newline.
pub open spec fn rows_ansi(rows: Seq<Seq<XpCell>>) -> Seq<char>
    decreases rows.len(),
{
    if rows.len() == 0 {
        Seq::empty()
    } else {
        rows_ansi(rows.drop_last()) + row_ansi(rows.last()) + seq!['\n']
    }
}

/// The ANSI text of all layers, one after another.
pub open spec fn layers_ansi(layers: Seq<XpLayer>) -> Seq<char>
    decreases layers.len(),
{
    if layers.len() == 0 {
        Seq::empty()
    } else {
        layers_ansi(layers.drop_last()) + rows_ansi(layer_rows(layers.last()))
    }
}

/// One cell as ANSI text showing `c`.
pub fn cell_to_ansi(cell: &XpCell, c: char) -> (r: String)
    ensures
        r@ == cell_ansi(*cell, c),
{
    let mut out = String::from_str("\x1b[38;2;");
    push_decimal(&mut out, cell.fg.r as u32);
    out.append(";");
    push_decimal(&mut out, cell.fg.g as u32);
    out.append(";");
    push_decimal(&mut out, cell.fg.b as u32);
    if !cell.bg.is_transparent() {
        out.append(";48;2;");
        push_decimal(&mut out, cell.bg.r as u32);
        out.append(";");
        push_decimal(&mut out, cell.bg.g as u32);
        out.append(";");
        push_decimal(&mut out, cell.bg.b as u32);
    }
    out.append("m");
    out.push(c);
    out.append("\x1b[0m");
    assert(out@ =~= cell_ansi(*cell, c));
    out
}

/// The character a cell shows.
fn decode_cell(cell: &XpCell) -> (r: char)
    ensures
        r == cell_char(*cell),
{
    if cell.ch != 0 {
        cp437_decode((cell.ch % 256) as u8)
    } else {
        ' '
    }
}

/// A grid as ANSI text: every layer, row by row, each cell with its own
/// colour escape and reset, each row ended by a newline.
pub fn rexpaint_to_ansi(xp: &XpFile) -> (r: String)
    ensures
        r@ == layers_ansi(xp.layers@),
{
    let mut out = String::new();
    let mut i: usize = 0;
    while i < xp.layers.len()
        invariant
            i <= xp.layers.len(),
            out@ == layers_ansi(xp.layers@.take(i as int)),
        decreases xp.layers.len() - i,
    {
        let layer = &xp.layers[i];
        let ghost lt = xp.layers@.take(i as int + 1);
        assert(lt.drop_last() =~= xp.layers@.take(i as int));
        let ghost base = out@;
        let ghost rows = layer_rows(*layer);
        let mut y: usize = 0;
        while y < layer.cells.len()
            invariant
                y <= layer.cells.len(),
                rows == layer_rows(*layer),
                out@ == base + rows_ansi(rows.take(y as int)),
            decreases layer.cells.len() - y,
        {
            let row = &layer.cells[y];
            let ghost rt = rows.take(y as int + 1);
            assert(rt.drop_last() =~= rows.take(y as int));
            let ghost row_base = out@;
            let mut x: usize = 0;
            while x < row.len()
                invariant
                    x <= row.len(),
                    out@ == row_base + row_ansi(row@.take(x as int)),
                decreases row.len() - x,
            {
                let cell = &row[x];
                let ghost ct = row@.take(x as int + 1);
                assert(ct.drop_last() =~= row@.take(x as int));
                let c = decode_cell(cell);
                let piece = cell_to_ansi(cell, c);
                out.append(piece.as_str());
                x = x + 1;
            }
            assert(row@.take(row.len() as int) =~= row@);
            assert(rows[y as int] == row@);
            out.push('\n');
            y = y + 1;
        }
        assert(rows.take(layer.cells.len() as int) =~= rows);
        i = i + 1;
    }
    assert(xp.layers@.take(xp.layers.len() as int) =~= xp.layers@);
    out
}

} // verus!
