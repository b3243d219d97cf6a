//! The cell grid of the `.xp` tile format: layers of cells, each a glyph, a
//! foreground and a background.
use vstd::prelude::*;


verus! {

/// The RGB colour of a grid cell.
#[derive(Debug, Clone, Copy, PartialEq, Eq, Structural)]
pub struct XpColor {
    pub r: u8,
    pub g: u8,
    pub b: u8,
}

impl XpColor {
    pub fn new(r: u8, g: u8, b: u8) -> (c: XpColor)
        ensures
            c == (XpColor { r, g, b }),
    {
        XpColor { r, g, b }
    }

    /// The format marks a transparent background with magenta, (255, 0, 255).
    pub open spec fn transparent_spec(self) -> bool {
        self.r == 255 && self.g == 0 && self.b == 255
    }

    pub fn is_transparent(&self) -> (r: bool)
        ensures
            r == self.transparent_spec(),
    {
        self.r == 255 && self.g == 0 && self.b == 255
    }
}

/// One cell: a glyph code (0 is blank) and two colours.
#[derive(Debug, Clone, Copy, PartialEq, Eq, Structural)]
pub struct XpCell {
    pub ch: u32,
    pub fg: XpColor,
    pub bg: XpColor,
}

/// The cell a new layer is filled with: glyph 0 on black.
pub open spec fn blank_cell() -> XpCell {
    XpCell { ch: 0, fg: XpColor { r: 0, g: 0, b: 0 }, bg: XpColor { r: 0, g: 0, b: 0 } }
}

pub fn new_blank_cell() -> (c: XpCell)
    ensures
        c == blank_cell(),
{
    XpCell { ch: 0, fg: XpColor::new(0, 0, 0), bg: XpColor::new(0, 0, 0) }
}

/// One layer: `height` rows of `width` cells, row `y` at `cells[y]`.
#[derive(Debug, Clone, PartialEq, Eq)]
pub struct XpLayer {
    pub width: usize,
    pub height: usize,
    pub cells: Vec<Vec<XpCell>>,
}

/// A row of `width` blank cells.
pub fn blank_row(width: usize) -> (r: Vec<XpCell>)
    ensures
        r@.len() == width,
        forall|x: int| 0 <= x < width ==> r@[x] == blank_cell(),
{
    let mut row: Vec<XpCell> = Vec::new();
    let mut x: usize = 0;
    while x < width
        invariant
            x <= width,
            row@.len() == x,
            forall|q: int| 0 <= q < x ==> row@[q] == blank_cell(),
        decreases width - x,
    {
        row.push(new_blank_cell());
        x = x + 1;
    }
    row
}

impl XpLayer {
    /// There are `height` rows, each of `width` cells.
    pub open spec fn wf(&self) -> bool {
        &&& self.cells@.len() == self.height
        &&& forall|y: int| 0 <= y < self.height ==> #[trigger] self.cells@[y]@.len() == self.width
    }

    /// The cell at column `x`, row `y`.
    pub open spec fn cell(&self, x: int, y: int) -> XpCell {
        self.cells@[y]@[x]
    }

    /// A layer of `width` by `height` blank cells.
    pub fn new(width: usize, height: usize) -> (l: XpLayer)
        ensures
            l.wf(),
            l.width == width,
            l.height == height,
            forall|x: int, y: int| 0 <= x < width && 0 <= y < height ==> l.cell(x, y) == blank_cell(),
    {
        let mut cells: Vec<Vec<XpCell>> = Vec::new();
        let mut y: usize = 0;
        while y < height
            invariant
                y <= height,
                cells@.len() == y,
                forall|q: int| 0 <= q < y ==> #[trigger] cells@[q]@.len() == width,
                forall|x: int, q: int|
                    0 <= x < width && 0 <= q < y ==> cells@[q]@[x] == blank_cell(),
            decreases height - y,
        {
            cells.push(blank_row(width));
            y = y + 1;
        }
        XpLayer { width, height, cells }
    }

    /// The cell at column `x`, row `y`, or `None` outside the layer.
    pub fn get(&self, x: usize, y: usize) -> (r: Option<&XpCell>)
        ensures
            !(x < self.width && y < self.height) ==> r is None,
            self.wf() && x < self.width && y < self.height ==> r is Some && *r->0 == self.cell(
                x as int,
                y as int,
            ),
    {
        if x < self.width && y < self.height && y < self.cells.len() && x < self.cells[y].len() {
            Some(&self.cells[y][x])
        } else {
            None
        }
    }
}

/// A grid: one or more layers of equal size.
#[derive(Debug, Clone, PartialEq, Eq)]
pub struct XpFile {
    pub layers: Vec<XpLayer>,
}

impl XpFile {
    /// Every layer is well formed.
    pub open spec fn wf(&self) -> bool {
        forall|i: int| 0 <= i < self.layers@.len() ==> #[trigger] self.layers@[i].wf()
    }

    /// A grid of one blank layer of `width` by `height`.
    pub fn new(width: usize, height: usize) -> (f: XpFile)
        ensures
            f.wf(),
            f.layers@.len() == 1,
            f.layers@[0].width == width,
            f.layers@[0].height == height,
            forall|x: int, y: int|
                0 <= x < width && 0 <= y < height ==> f.layers@[0].cell(x, y) == blank_cell(),
    {
        let layer = XpLayer::new(width, height);
        let layers = vec![layer];
        XpFile { layers }
    }
}

} // verus!
