//! A drawing surface of the window toolkit: a grid of pixels, rectangular
//! views onto it, and text in a fixed font of 8 by 16 pixels.

use vstd::prelude::*;
use vstd::slice::slice_subrange;
use crate::wtk::geom::{Dims, Rect};

verus! {

/// Colour of a surface after it was resized.
pub const BACKGROUND: u32 = 0x002200;

/// A pixel of a glyph buffer that lets the surface show through.
pub const TRANSPARENT: u32 = 0xFF00_0000;

/// Width of a glyph in pixels.
pub const GLYPH_WIDTH: usize = 8;

/// Height of a glyph in pixels.
pub const GLYPH_HEIGHT: usize = 16;

/// Number of glyphs of a font.
pub const GLYPH_COUNT: usize = 256;

/// The glyph that stands for a character that the font does not have: the
/// question mark.
pub const FALLBACK_GLYPH: u8 = 0x3F;

/// Index of the cell in column `x` of row `y` of a grid of `cols` columns that
/// is kept row by row.
pub open spec fn cell(cols: int, x: int, y: int) -> int {
    y * cols + x
}

/// A colour: alpha, red, green and blue, eight bits each.
#[derive(Clone, Copy, Debug, PartialEq, Eq, Structural)]
pub struct Colour(u32);

impl Colour {
    /// The colour as 32 bits, alpha in the top byte.
    pub closed spec fn argb(self) -> u32 {
        self.0
    }

    pub fn black() -> (r: Colour)
        ensures
            r.argb() == 0,
    {
        Colour(0)
    }

    pub fn ltgray() -> (r: Colour)
        ensures
            r.argb() == 0xDD_DD_DD,
    {
        Colour(0xDD_DD_DD)
    }

    pub fn gray() -> (r: Colour)
        ensures
            r.argb() == 0x55_55_55,
    {
        Colour(0x55_55_55)
    }

    pub fn white() -> (r: Colour)
        ensures
            r.argb() == 0xFF_FF_FF,
    {
        Colour(0xFF_FF_FF)
    }

    /// The colour with the given 32 bits, alpha in the top byte.
    pub fn from_argb32(argb: u32) -> (r: Colour)
        ensures
            r.argb() == argb,
    {
        Colour(argb)
    }

    /// The colour as 32 bits, alpha in the top byte.
    pub fn as_argb32(&self) -> (r: u32)
        ensures
            r == self.argb(),
    {
        self.0
    }
}

/// What to hand to a window to show a surface: the rectangle of the window
/// to fill and the pixels, row by row.
#[derive(Debug)]
pub struct Blit<'a> {
    pub x: u32,
    pub y: u32,
    pub w: u32,
    pub h: u32,
    pub data: &'a [u32],
}

/// The cell in column `x` of row `y` of a grid of `cols` columns and `rows`
/// rows has an index inside the grid.
pub proof fn lemma_cell_index(cols: int, rows: int, x: int, y: int)
    by (nonlinear_arith)
    requires
        0 <= x < cols,
        0 <= y < rows,
    ensures
        0 <= cell(cols, x, y) < cols * rows,
        0 <= y * cols <= cols * rows - cols,
{
}

/// Two different cells of a grid have different indices.
pub proof fn lemma_cells_apart(cols: int, x1: int, y1: int, x2: int, y2: int)
    by (nonlinear_arith)
    requires
        0 <= x1 < cols,
        0 <= x2 < cols,
        0 <= y1,
        0 <= y2,
        x1 != x2 || y1 != y2,
    ensures
        cell(cols, x1, y1) != cell(cols, x2, y2),
{
}

/// A grid of `cols * rows` cells with at least one column has `rows` rows.
pub proof fn lemma_rows(cols: int, rows: int, len: int)
    by (nonlinear_arith)
    requires
        0 <= cols,
        0 <= rows,
        len == cols * rows,
    ensures
        cols > 0 ==> len / cols == rows,
        cols == 0 ==> len == 0,
{
}

/// A grid of pixels, kept row by row.
#[derive(Debug)]
pub struct Surface {
    width: usize,
    data: Vec<u32>,
}

impl Surface {
    /// Number of columns.
    pub closed spec fn cols(&self) -> int {
        self.width as int
    }

    /// The pixels, row by row.
    pub closed spec fn pixels(&self) -> Seq<u32> {
        self.data@
    }

    /// Number of rows.
    pub open spec fn rows(&self) -> int {
        if self.cols() == 0 {
            0
        } else {
            self.pixels().len() as int / self.cols()
        }
    }

    /// The pixel in column `x` of row `y`.
    pub open spec fn pixel(&self, x: int, y: int) -> u32 {
        self.pixels()[cell(self.cols(), x, y)]
    }

    /// The invariant of a surface: its pixels are whole rows, and 32 bits can
    /// number its columns and its rows. A surface without columns has no
    /// pixels.
    pub open spec fn wf(&self) -> bool {
        &&& 0 <= self.cols() <= u32::MAX
        &&& 0 <= self.rows() <= u32::MAX
        &&& self.pixels().len() == self.cols() * self.rows()
    }

    /// Whether `other` has the size of this surface.
    pub open spec fn same_size(&self, other: &Surface) -> bool {
        self.cols() == other.cols() && self.rows() == other.rows()
    }

    /// Number of columns.
    pub fn width(&self) -> (r: u32)
        requires
            self.wf(),
        ensures
            r == self.cols(),
    {
        self.width as u32
    }

    /// Number of rows.
    pub fn height(&self) -> (r: u32)
        requires
            self.wf(),
        ensures
            r == self.rows(),
    {
        if self.width == 0 {
            0
        } else {
            (self.data.len() / self.width) as u32
        }
    }

    /// What to hand to a window to show the surface: all of it, at the
    /// window's top left corner.
    pub fn blit_to_win(&self) -> (r: Blit<'_>)
        requires
            self.wf(),
        ensures
            r.x == 0,
            r.y == 0,
            r.w == self.cols(),
            r.h == self.rows(),
            r.data@ == self.pixels(),
    {
        Blit { x: 0, y: 0, w: self.width(), h: self.height(), data: self.data.as_slice() }
    }

    /// Gives the surface the size `dims` and fills it with the background
    /// colour.
    pub fn resize(&mut self, dims: Dims)
        requires
            dims.w * dims.h <= usize::MAX,
        ensures
            final(self).wf(),
            final(self).cols() == dims.w,
            final(self).pixels() == Seq::new((dims.w * dims.h) as nat, |i: int| 0x002200u32),
            dims.w > 0 ==> final(self).rows() == dims.h,
    {
        let w = dims.w as usize;
        let h = dims.h as usize;
        assert(dims.w * dims.h == w * h);
        assert(w * h <= usize::MAX);
        let n = w * h;
        let mut data: Vec<u32> = Vec::with_capacity(n);
        let mut i: usize = 0;
        while i < n
            invariant
                i <= n,
                data@ == Seq::new(i as nat, |k: int| 0x002200u32),
            decreases n - i,
        {
            data.push(BACKGROUND);
            assert(data@ =~= Seq::new((i + 1) as nat, |k: int| 0x002200u32));
            i += 1;
        }
        proof {
            lemma_rows(w as int, h as int, n as int);
        }
        self.width = w;
        self.data = data;
    }

    /// The rectangle of all pixels of the surface.
    pub fn rect(&self) -> (r: Rect)
        requires
            self.wf(),
        ensures
            r == (Rect { x: 0, y: 0, w: self.cols() as u32, h: self.rows() as u32 }),
            forall|px: int, py: int|
                #[trigger] r.contains(px, py) <==> 0 <= px < self.cols() && 0 <= py < self.rows(),
    {
        Rect::new(0, 0, self.width(), self.height())
    }

    /// The view onto the part of the surface that `rect` covers.
    pub fn slice(&self, rect: Rect) -> (r: SurfaceView)
        requires
            self.wf(),
        ensures
            forall|px: int, py: int|
                #[trigger] r.area().contains(px, py) <==> rect.contains(px, py) && 0 <= px
                    < self.cols() && 0 <= py < self.rows(),
    {
        let all = self.rect();
        let part = all.intersect(&rect);
        assert forall|px: int, py: int| #[trigger] part.contains(px, py) <==> rect.contains(px, py)
            && 0 <= px < self.cols() && 0 <= py < self.rows() by {
            assert(all.contains(px, py) <==> 0 <= px < self.cols() && 0 <= py < self.rows());
        }
        SurfaceView { rect: part }
    }

    /// Reads the pixel in column `x` of row `y`.
    pub fn get_pixel(&self, x: u32, y: u32) -> (r: u32)
        requires
            self.wf(),
            x < self.cols(),
            y < self.rows(),
        ensures
            r == self.pixel(x as int, y as int),
    {
        let n = self.data.len();
        proof {
            lemma_cell_index(self.cols(), self.rows(), x as int, y as int);
            assert(y * self.width + x == cell(self.cols(), x as int, y as int));
            assert(y * self.width <= n);
        }
        self.data[y as usize * self.width + x as usize]
    }

    /// Gives the pixel in column `x` of row `y` the colour `argb`.
    pub fn set_pixel(&mut self, x: u32, y: u32, argb: u32)
        requires
            old(self).wf(),
            x < old(self).cols(),
            y < old(self).rows(),
        ensures
            final(self).wf(),
            final(self).same_size(old(self)),
            forall|px: int, py: int|
                0 <= px < old(self).cols() && 0 <= py < old(self).rows() ==> #[trigger] final(self).pixel(px, py)
                    == if px == x && py == y {
                    argb
                } else {
                    old(self).pixel(px, py)
                },
    {
        proof {
            lemma_cell_index(self.cols(), self.rows(), x as int, y as int);
            assert forall|px: int, py: int|
                0 <= px < self.cols() && 0 <= py < self.rows() && (px != x || py
                    != y) implies #[trigger] cell(self.cols(), px, py) != cell(
                self.cols(),
                x as int,
                y as int,
            ) by {
                lemma_cells_apart(self.cols(), px, py, x as int, y as int);
            }
            assert forall|px: int, py: int|
                0 <= px < self.cols() && 0 <= py < self.rows() implies 0 <= #[trigger] cell(
                    self.cols(),
                    px,
                    py,
                ) < self.pixels().len() by {
                lemma_cell_index(self.cols(), self.rows(), px, py);
            }
        }
        let n = self.data.len();
        assert(y * self.width + x == cell(self.cols(), x as int, y as int));
        assert(y * self.width <= n);
        self.data.set(y as usize * self.width + x as usize, argb);
    }

    /// Gives each pixel of `area` the colour `argb`.
    fn fill_area(&mut self, area: Rect, argb: u32)
        requires
            old(self).wf(),
            area.x + area.w <= old(self).cols(),
            area.y + area.h <= old(self).rows(),
        ensures
            final(self).wf(),
            final(self).same_size(old(self)),
            forall|px: int, py: int|
                0 <= px < old(self).cols() && 0 <= py < old(self).rows() ==> #[trigger] final(self).pixel(px, py)
                    == if area.contains(px, py) {
                    argb
                } else {
                    old(self).pixel(px, py)
                },
    {
        let mut row: u32 = 0;
        while row < area.h
            invariant
                self.wf(),
                self.same_size(old(self)),
                area.x + area.w <= self.cols(),
                area.y + area.h <= self.rows(),
                row <= area.h,
                forall|px: int, py: int|
                    0 <= px < self.cols() && 0 <= py < self.rows() ==> #[trigger] self.pixel(px, py)
                        == if area.contains(px, py) && py < area.y + row {
                        argb
                    } else {
                        old(self).pixel(px, py)
                    },
            decreases area.h - row,
        {
            let y = area.y + row;
            let mut col: u32 = 0;
            while col < area.w
                invariant
                    self.wf(),
                    self.same_size(old(self)),
                    area.x + area.w <= self.cols(),
                    area.y + area.h <= self.rows(),
                    row < area.h,
                    y == area.y + row,
                    col <= area.w,
                    forall|px: int, py: int|
                        0 <= px < self.cols() && 0 <= py < self.rows() ==> #[trigger] self.pixel(
                            px,
                            py,
                        ) == if area.contains(px, py) && (py < y || (py == y && px < area.x
                            + col)) {
                            argb
                        } else {
                            old(self).pixel(px, py)
                        },
                decreases area.w - col,
            {
                self.set_pixel(area.x + col, y, argb);
                col += 1;
            }
            row += 1;
        }
    }
}

/// The rectangle of the pixels that a drawing operation on `rect` reaches
/// through a view onto the rectangle `view` of a surface of `cols` columns and
/// `rows` rows, where `rect` is given relative to the view's top left corner.
pub open spec fn clipped(view: Rect, cols: int, rows: int, rect: Rect) -> Rect {
    view.part(rect).intersection(Rect { x: 0, y: 0, w: cols as u32, h: rows as u32 })
}

impl Default for Surface {
    /// A surface without pixels.
    fn default() -> (r: Surface)
        ensures
            r.cols() == 0,
            r.rows() == 0,
            r.wf(),
    {
        Surface { width: 0, data: Vec::new() }
    }
}

/// A view onto a rectangle of a surface.
#[derive(Clone, Copy, Debug)]
pub struct SurfaceView {
    rect: Rect,
}

impl SurfaceView {
    /// The rectangle of the surface that the view shows.
    pub closed spec fn area(&self) -> Rect {
        self.rect
    }

    /// Number of columns of the view.
    pub fn width(&self) -> (r: u32)
        ensures
            r == self.area().w,
    {
        self.rect.width()
    }

    /// Number of rows of the view.
    pub fn height(&self) -> (r: u32)
        ensures
            r == self.area().h,
    {
        self.rect.height()
    }

    /// The view onto the part of this view that `rect` covers, where `rect`
    /// is given relative to this view's top left corner.
    pub fn slice(&self, rect: Rect) -> (r: SurfaceView)
        ensures
            forall|px: int, py: int|
                #[trigger] r.area().contains(px, py) <==> self.area().contains(px, py)
                    && rect.moved(self.area().x as int, self.area().y as int).contains(px, py),
    {
        SurfaceView { rect: self.rect.intersect(&rect.offset(self.rect.x(), self.rect.y())) }
    }

    /// The pixels of `surf` that a drawing operation on `rect` reaches, where
    /// `rect` is given relative to the view's top left corner: those of
    /// `rect` that the view shows and that the surface has.
    pub open spec fn reach(&self, surf: &Surface, rect: Rect, px: int, py: int) -> bool {
        &&& self.area().contains(px, py)
        &&& rect.moved(self.area().x as int, self.area().y as int).contains(px, py)
        &&& 0 <= px < surf.cols()
        &&& 0 <= py < surf.rows()
    }

    /// The rectangle of the pixels of `surf` that a drawing operation on
    /// `rect` reaches.
    fn clip(&self, surf: &Surface, rect: Rect) -> (r: Rect)
        requires
            surf.wf(),
        ensures
            r == clipped(self.area(), surf.cols(), surf.rows(), rect),
            forall|px: int, py: int| #[trigger] r.contains(px, py) <==> self.reach(surf, rect, px, py),
            r.x + r.w <= surf.cols(),
            r.y + r.h <= surf.rows(),
            r.x + r.w == r.right(),
            r.y + r.h == r.bottom(),
    {
        let inner = self.rect.relative(&rect);
        let all = surf.rect();
        let r = inner.intersect(&all);
        proof {
            assert forall|px: int, py: int| #[trigger] r.contains(px, py) <==> self.reach(
                surf,
                rect,
                px,
                py,
            ) by {
                assert(inner.contains(px, py) <==> self.rect.contains(px, py) && rect.moved(
                    self.rect.x as int,
                    self.rect.y as int,
                ).contains(px, py));
                assert(all.contains(px, py) <==> 0 <= px < surf.cols() && 0 <= py < surf.rows());
            }
            if !r.is_empty() {
                assert(r.contains(r.x + r.w - 1, r.y + r.h - 1));
                assert(all.contains(r.x + r.w - 1, r.y + r.h - 1));
            }
        }
        r
    }

    /// Gives the pixels of `surf` that lie in `rect` the colour `colour`. The
    /// rectangle is given relative to the view's top left corner, and only
    /// pixels that the view shows are touched.
    pub fn fill_rect(&self, surf: &mut Surface, rect: Rect, colour: Colour)
        requires
            old(surf).wf(),
        ensures
            final(surf).wf(),
            final(surf).same_size(old(surf)),
            forall|px: int, py: int|
                0 <= px < old(surf).cols() && 0 <= py < old(surf).rows() ==> #[trigger] final(surf).pixel(px, py)
                    == if self.reach(old(surf), rect, px, py) {
                    colour.argb()
                } else {
                    old(surf).pixel(px, py)
                },
    {
        let area = self.clip(surf, rect);
        surf.fill_area(area, colour.as_argb32());
    }
}

/// Whether the character `c` combines with the character before it into one
/// grapheme.
pub open spec fn combining(c: char) -> bool {
    let u = c as u32;
    ||| 0x0300 <= u <= 0x036F
    ||| 0x1AB0 <= u <= 0x1AFF
    ||| 0x1DC0 <= u <= 0x1DFF
    ||| 0x20D0 <= u <= 0x20FF
    ||| 0xFE20 <= u <= 0xFE2F
}

/// Whether the character `c` combines with the character before it into one
/// grapheme.
pub fn is_combining(c: char) -> (r: bool)
    ensures
        r == combining(c),
{
    let u = c as u32;
    (0x0300 <= u && u <= 0x036F) || (0x1AB0 <= u && u <= 0x1AFF) || (0x1DC0 <= u && u <= 0x1DFF)
        || (0x20D0 <= u && u <= 0x20FF) || (0xFE20 <= u && u <= 0xFE2F)
}

/// Where the grapheme ends that goes on at position `i` of `chars`: the first
/// position from `i` on that does not hold a combining character.
pub open spec fn skip_combining(chars: Seq<char>, i: int) -> int
    decreases chars.len() - i,
{
    if 0 <= i < chars.len() && combining(chars[i]) {
        skip_combining(chars, i + 1)
    } else {
        i
    }
}

/// Whether the pixel in column `col` of a glyph row with the bits `byte` is
/// lit. The leftmost pixel is the highest bit.
pub open spec fn lit(byte: u8, col: int) -> bool {
    (byte >> ((7 - col) as u8)) & 1 != 0
}

/// The glyph buffer `buf` with the lit pixels of `glyph` painted in `argb`.
pub open spec fn painted(buf: Seq<u32>, glyph: Seq<u8>, argb: u32) -> Seq<u32> {
    Seq::new(
        128,
        |k: int|
            if lit(glyph[k / 8], k % 8) {
                argb
            } else {
                buf[k]
            },
    )
}

/// A glyph buffer that shows nothing.
pub open spec fn blank() -> Seq<u32> {
    Seq::new(128, |k: int| 0xFF00_0000u32)
}

/// The first position from `from` on at which `chars` holds `cp`, or the
/// position of the question mark where there is none.
pub open spec fn first_glyph(chars: Seq<char>, cp: char, from: int) -> int
    decreases chars.len() - from,
{
    if from < 0 || from >= chars.len() {
        0x3F
    } else if chars[from] == cp {
        from
    } else {
        first_glyph(chars, cp, from + 1)
    }
}

/// A font of 256 glyphs of 8 by 16 pixels.
#[derive(Debug)]
pub struct MonoFont {
    glyphs: Vec<u8>,
    codepage: Vec<char>,
}

impl MonoFont {
    /// The rows of all glyphs, sixteen bytes for each glyph.
    pub closed spec fn bitmaps(&self) -> Seq<u8> {
        self.glyphs@
    }

    /// The character that each glyph depicts.
    pub closed spec fn chars(&self) -> Seq<char> {
        self.codepage@
    }

    /// The invariant of a font: it has 256 glyphs of sixteen rows.
    #[verifier::type_invariant]
    pub open spec fn wf(&self) -> bool {
        self.bitmaps().len() == 4096 && self.chars().len() == 256
    }

    /// Whether `i` is the glyph for the character `cp`: the first glyph that
    /// depicts it, or the question mark where no glyph does.
    pub open spec fn is_glyph_of(&self, cp: char, i: int) -> bool {
        if exists|k: int| 0 <= k < 256 && self.chars()[k] == cp {
            &&& 0 <= i < 256
            &&& self.chars()[i] == cp
            &&& forall|k: int| 0 <= k < i ==> self.chars()[k] != cp
        } else {
            i == 0x3F
        }
    }

    /// The glyph for the character `cp`.
    pub open spec fn glyph_of(&self, cp: char) -> int {
        first_glyph(self.chars(), cp, 0)
    }

    /// The sixteen rows of glyph `i`.
    pub open spec fn glyph(&self, i: int) -> Seq<u8> {
        self.bitmaps().subrange(i * 16, i * 16 + 16)
    }

    /// The font with the glyph rows `glyphs`, sixteen bytes for each of 256
    /// glyphs, and the characters `codepage` that the glyphs depict. `None`
    /// where there are not 256 glyphs.
    pub fn new(glyphs: Vec<u8>, codepage: Vec<char>) -> (r: Option<MonoFont>)
        ensures
            r is Some <==> glyphs.len() == 4096 && codepage.len() == 256,
            r matches Some(font) ==> font.bitmaps() == glyphs@ && font.chars() == codepage@,
    {
        if glyphs.len() == GLYPH_COUNT * GLYPH_HEIGHT && codepage.len() == GLYPH_COUNT {
            Some(MonoFont { glyphs, codepage })
        } else {
            None
        }
    }

    /// Finds the glyph for the character `cp`.
    pub fn unicode_to_cp437(&self, cp: char) -> (r: u8)
        ensures
            r == self.glyph_of(cp),
            self.is_glyph_of(cp, r as int),
    {
        proof {
            use_type_invariant(self);
        }
        let mut i: usize = 0;
        while i < GLYPH_COUNT
            invariant
                self.wf(),
                i <= 256,
                forall|k: int| 0 <= k < i ==> self.chars()[k] != cp,
                self.glyph_of(cp) == first_glyph(self.chars(), cp, i as int),
            decreases 256 - i,
        {
            if self.codepage[i] == cp {
                return i as u8;
            }
            i += 1;
        }
        FALLBACK_GLYPH
    }

    /// A renderer with an empty buffer.
    pub fn get_renderer(&self) -> (r: MonoFontRender)
        ensures
            r.buf() == blank(),
    {
        let mut buffer: Vec<u32> = Vec::with_capacity(GLYPH_WIDTH * GLYPH_HEIGHT);
        let mut i: usize = 0;
        while i < 128
            invariant
                i <= 128,
                buffer@ == Seq::new(i as nat, |k: int| 0xFF00_0000u32),
            decreases 128 - i,
        {
            buffer.push(TRANSPARENT);
            assert(buffer@ =~= Seq::new((i + 1) as nat, |k: int| 0xFF00_0000u32));
            i += 1;
        }
        MonoFontRender { buffer }
    }
}

/// The glyph buffer after the characters of `chars` from `from` up to `to`
/// were painted into an empty buffer, one over the other, in `argb`.
pub open spec fn rendered(font: &MonoFont, chars: Seq<char>, from: int, to: int, argb: u32) -> Seq<
    u32,
>
    decreases to - from,
{
    if from >= to {
        blank()
    } else {
        painted(
            rendered(font, chars, from, to - 1, argb),
            font.glyph(font.glyph_of(chars[to - 1])),
            argb,
        )
    }
}

/// Renders graphemes into a buffer of 8 by 16 pixels.
#[derive(Debug)]
pub struct MonoFontRender {
    buffer: Vec<u32>,
}

impl MonoFontRender {
    /// The pixels of the buffer, row by row.
    pub closed spec fn buf(&self) -> Seq<u32> {
        self.buffer@
    }

    /// The invariant of a renderer: its buffer has 8 by 16 pixels.
    #[verifier::type_invariant]
    pub open spec fn wf(&self) -> bool {
        self.buf().len() == 128
    }

    /// Renders the grapheme of `chars` that starts at position `pos`: the
    /// character there with the combining characters that follow it, painted
    /// one over the other in `colour` on an empty buffer. `pos` moves to the
    /// start of the next grapheme. The result is the size of the grapheme in
    /// pixels, or `None` at the end of `chars`.
    pub fn render_grapheme(
        &mut self,
        font: &MonoFont,
        chars: &[char],
        pos: &mut usize,
        colour: Colour,
    ) -> (r: Option<(u32, u32)>)
        ensures
            final(self).wf(),
            r is Some <==> *old(pos) < chars.len(),
            match r {
                Some(size) => {
                    &&& size == (8u32, 16u32)
                    &&& *final(pos) == skip_combining(chars@, *old(pos) + 1)
                    &&& *old(pos) < *final(pos) <= chars.len()
                    &&& final(self).buf() == rendered(
                        font,
                        chars@,
                        *old(pos) as int,
                        *final(pos) as int,
                        colour.argb(),
                    )
                },
                None => *final(pos) == *old(pos) && final(self).buf() == blank(),
            },
    {
        let mut i: usize = 0;
        let mut buffer: Vec<u32> = Vec::with_capacity(GLYPH_WIDTH * GLYPH_HEIGHT);
        while i < 128
            invariant
                i <= 128,
                buffer@ == Seq::new(i as nat, |k: int| 0xFF00_0000u32),
            decreases 128 - i,
        {
            buffer.push(TRANSPARENT);
            assert(buffer@ =~= Seq::new((i + 1) as nat, |k: int| 0xFF00_0000u32));
            i += 1;
        }
        *self = MonoFontRender { buffer };
        if *pos >= chars.len() {
            return None;
        }
        let start = *pos;
        self.render_char(font, colour, chars[start]);
        let mut at = start + 1;
        proof {
            reveal_with_fuel(rendered, 2);
        }
        while at < chars.len() && is_combining(chars[at])
            invariant
                self.wf(),
                start < at <= chars.len(),
                skip_combining(chars@, start + 1) == skip_combining(chars@, at as int),
                self.buf() == rendered(font, chars@, start as int, at as int, colour.argb()),
            decreases chars.len() - at,
        {
            self.render_char(font, colour, chars[at]);
            at += 1;
        }
        *pos = at;
        Some((GLYPH_WIDTH as u32, GLYPH_HEIGHT as u32))
    }

    /// The `width` pixels of the buffer from the start of row `row` on.
    pub fn buffer(&self, row: usize, width: usize) -> (r: &[u32])
        requires
            row * 8 + width <= 128,
        ensures
            r@ == self.buf().subrange(row * 8, row * 8 + width),
    {
        proof {
            use_type_invariant(self);
        }
        slice_subrange(self.buffer.as_slice(), row * GLYPH_WIDTH, row * GLYPH_WIDTH + width)
    }

    /// Paints the glyph of the character `cp` into the buffer: each lit pixel
    /// of the glyph gets the colour `colour`, the others stay as they are.
    pub fn render_char(&mut self, font: &MonoFont, colour: Colour, cp: char)
        ensures
            final(self).wf(),
            final(self).buf() == painted(
                old(self).buf(),
                font.glyph(font.glyph_of(cp)),
                colour.argb(),
            ),
    {
        proof {
            use_type_invariant(&*self);
            use_type_invariant(font);
        }
        let idx = font.unicode_to_cp437(cp) as usize;
        let ghost glyph = font.glyph(idx as int);
        let mut buffer: Vec<u32> = Vec::with_capacity(GLYPH_WIDTH * GLYPH_HEIGHT);
        let mut k: usize = 0;
        while k < 128
            invariant
                self.wf(),
                font.wf(),
                idx < 256,
                glyph == font.glyph(idx as int),
                k <= 128,
                buffer@.len() == k,
                forall|j: int|
                    0 <= j < k ==> buffer@[j] == if lit(glyph[j / 8], j % 8) {
                        colour.argb()
                    } else {
                        self.buf()[j]
                    },
            decreases 128 - k,
        {
            let row = k / GLYPH_WIDTH;
            let col = k % GLYPH_WIDTH;
            let byte = font.glyphs[idx * GLYPH_HEIGHT + row];
            assert(byte == glyph[row as int]);
            if (byte >> ((7 - col) as u8)) & 1 != 0 {
                buffer.push(colour.as_argb32());
            } else {
                buffer.push(self.buffer[k]);
            }
            k += 1;
        }
        assert(buffer@ =~= painted(self.buf(), glyph, colour.argb()));
        *self = MonoFontRender { buffer };
    }
}

/// The pixel of a glyph buffer that comes to lie on the pixel in column `px`
/// of row `py` when the buffer is put on `area`, top left corner on top left
/// corner.
pub open spec fn glyph_pixel(area: Rect, buf: Seq<u32>, px: int, py: int) -> u32 {
    buf[(py - area.y) * 8 + (px - area.x)]
}

/// Whether putting a glyph buffer on `area` changes the pixel in column `px`
/// of row `py`: the pixel lies in `area` and under the buffer, and the
/// buffer's pixel there is not transparent.
pub open spec fn glyph_covers(area: Rect, buf: Seq<u32>, px: int, py: int) -> bool {
    &&& area.contains(px, py)
    &&& px - area.x < 8
    &&& py - area.y < 16
    &&& glyph_pixel(area, buf, px, py) >> 24u32 == 0
}

/// The pixels `pixels` of a surface of `cols` columns after the glyph buffer
/// `buf` was put on `area`.
pub open spec fn stamped(pixels: Seq<u32>, cols: int, area: Rect, buf: Seq<u32>) -> Seq<u32> {
    Seq::new(
        pixels.len(),
        |i: int|
            if glyph_covers(area, buf, i % cols, i / cols) {
                glyph_pixel(area, buf, i % cols, i / cols)
            } else {
                pixels[i]
            },
    )
}

/// A grapheme has at least one character and ends inside the text.
pub proof fn lemma_skip_combining(chars: Seq<char>, i: int)
    requires
        0 <= i <= chars.len(),
    ensures
        i <= skip_combining(chars, i) <= chars.len(),
    decreases chars.len() - i,
{
    if i < chars.len() && combining(chars[i]) {
        lemma_skip_combining(chars, i + 1);
    }
}

/// The pixels `pixels` of a surface of `cols` columns and `rows` rows after
/// the graphemes of `chars` from position `pos` on were drawn through a view
/// onto `view`, the first on `rect`, each of the others eight columns to the
/// right of the one before it.
pub open spec fn text_drawn(
    pixels: Seq<u32>,
    cols: int,
    rows: int,
    view: Rect,
    font: &MonoFont,
    rect: Rect,
    chars: Seq<char>,
    pos: int,
    argb: u32,
) -> Seq<u32>
    decreases chars.len() - pos,
{
    if 0 <= pos < chars.len() {
        let end = skip_combining(chars, pos + 1);
        proof {
            lemma_skip_combining(chars, pos + 1);
        }
        text_drawn(
            stamped(
                pixels,
                cols,
                clipped(view, cols, rows, rect),
                rendered(font, chars, pos, end, argb),
            ),
            cols,
            rows,
            view,
            font,
            rect.moved(8, 0),
            chars,
            end,
            argb,
        )
    } else {
        pixels
    }
}

/// The cell with the index `i` of a grid of `cols` columns and `rows` rows
/// lies in column `i % cols` of row `i / cols`.
pub proof fn lemma_cell_of_index(cols: int, rows: int, i: int)
    by (nonlinear_arith)
    requires
        0 < cols,
        0 <= i < cols * rows,
    ensures
        0 <= i % cols < cols,
        0 <= i / cols < rows,
        cell(cols, i % cols, i / cols) == i,
{
}

impl SurfaceView {
    /// Puts the buffer of `render` on `area` of `surf`: each pixel of the
    /// buffer that is not transparent and comes to lie in `area` replaces the
    /// pixel under it.
    fn stamp(surf: &mut Surface, area: Rect, render: &MonoFontRender)
        requires
            old(surf).wf(),
            area.x + area.w <= old(surf).cols(),
            area.y + area.h <= old(surf).rows(),
        ensures
            final(surf).wf(),
            final(surf).same_size(old(surf)),
            final(surf).pixels() == stamped(
                old(surf).pixels(),
                old(surf).cols(),
                area,
                render.buf(),
            ),
    {
        proof {
            use_type_invariant(render);
        }
        let rows = if area.h < GLYPH_HEIGHT as u32 {
            area.h
        } else {
            GLYPH_HEIGHT as u32
        };
        let cols = if area.w < GLYPH_WIDTH as u32 {
            area.w
        } else {
            GLYPH_WIDTH as u32
        };
        let mut i: u32 = 0;
        while i < rows
            invariant
                surf.wf(),
                surf.same_size(old(surf)),
                render.wf(),
                area.x + area.w <= surf.cols(),
                area.y + area.h <= surf.rows(),
                rows <= 16 && rows <= area.h && (rows == 16 || rows == area.h),
                cols <= 8 && cols <= area.w && (cols == 8 || cols == area.w),
                i <= rows,
                forall|px: int, py: int|
                    0 <= px < surf.cols() && 0 <= py < surf.rows() ==> #[trigger] surf.pixel(px, py)
                        == if glyph_covers(area, render.buf(), px, py) && py < area.y + i {
                        glyph_pixel(area, render.buf(), px, py)
                    } else {
                        old(surf).pixel(px, py)
                    },
            decreases rows - i,
        {
            let line = render.buffer(i as usize, cols as usize);
            let mut j: u32 = 0;
            while j < cols
                invariant
                    surf.wf(),
                    surf.same_size(old(surf)),
                    render.wf(),
                    area.x + area.w <= surf.cols(),
                    area.y + area.h <= surf.rows(),
                    rows <= 16 && rows <= area.h && (rows == 16 || rows == area.h),
                    cols <= 8 && cols <= area.w && (cols == 8 || cols == area.w),
                    i < rows,
                    j <= cols,
                    line@ == render.buf().subrange(i * 8, i * 8 + cols),
                    forall|px: int, py: int|
                        0 <= px < surf.cols() && 0 <= py < surf.rows() ==> #[trigger] surf.pixel(
                            px,
                            py,
                        ) == if glyph_covers(area, render.buf(), px, py) && (py < area.y + i || (py
                            == area.y + i && px < area.x + j)) {
                            glyph_pixel(area, render.buf(), px, py)
                        } else {
                            old(surf).pixel(px, py)
                        },
                decreases cols - j,
            {
                let s = line[j as usize];
                assert(s == glyph_pixel(area, render.buf(), area.x + j, area.y + i));
                if s >> 24u32 == 0 {
                    surf.set_pixel(area.x + j, area.y + i, s);
                }
                j += 1;
            }
            i += 1;
        }
        proof {
            let want = stamped(old(surf).pixels(), old(surf).cols(), area, render.buf());
            assert forall|k: int| 0 <= k < want.len() implies surf.pixels()[k] == want[k] by {
                lemma_rows(surf.cols(), surf.rows(), surf.pixels().len() as int);
                lemma_cell_of_index(surf.cols(), surf.rows(), k);
                let px = k % surf.cols();
                let py = k / surf.cols();
                assert(surf.pixel(px, py) == surf.pixels()[k]);
                assert(old(surf).pixel(px, py) == old(surf).pixels()[k]);
            }
            assert(surf.pixels() =~= want);
        }
    }

    /// Draws the text `chars` on `surf` in `colour`, with the glyphs of
    /// `font`. The first grapheme goes to `rect`, each of the others eight
    /// columns to the right of the one before it. `rect` is given relative to
    /// the view's top left corner, and only pixels that the view shows are
    /// touched. The colour has to be opaque, with nothing in its top byte, or
    /// transparent, with the top byte full.
    pub fn draw_text(
        &self,
        surf: &mut Surface,
        font: &MonoFont,
        rect: Rect,
        chars: &[char],
        colour: Colour,
    )
        requires
            old(surf).wf(),
            colour.argb() >> 24u32 == 0 || colour.argb() >> 24u32 == 255,
        ensures
            final(surf).wf(),
            final(surf).same_size(old(surf)),
            final(surf).pixels() == text_drawn(
                old(surf).pixels(),
                old(surf).cols(),
                old(surf).rows(),
                self.area(),
                font,
                rect,
                chars@,
                0,
                colour.argb(),
            ),
    {
        let mut st = font.get_renderer();
        let mut rect = rect;
        let mut pos: usize = 0;
        let ghost goal = text_drawn(
            old(surf).pixels(),
            old(surf).cols(),
            old(surf).rows(),
            self.area(),
            font,
            rect,
            chars@,
            0,
            colour.argb(),
        );
        loop
            invariant
                surf.wf(),
                surf.same_size(old(surf)),
                pos <= chars.len(),
                goal == text_drawn(
                    surf.pixels(),
                    surf.cols(),
                    surf.rows(),
                    self.area(),
                    font,
                    rect,
                    chars@,
                    pos as int,
                    colour.argb(),
                ),
            ensures
                surf.wf(),
                surf.same_size(old(surf)),
                surf.pixels() == goal,
            decreases chars.len() - pos,
        {
            let ghost before = pos;
            match st.render_grapheme(font, chars, &mut pos, colour) {
                Some(_) => {
                    let area = self.clip(surf, rect);
                    Self::stamp(surf, area, &st);
                    rect = rect.offset(GLYPH_WIDTH as u32, 0);
                },
                None => {
                    break ;
                },
            }
        }
    }
}

} // verus!
