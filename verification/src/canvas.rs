//! The canvas: a `width × height` grid of RGBA pixels, held row by row.

use vstd::prelude::*;
use crate::blend::{blend, channels, over};
use crate::command::{Color, PixelCommand};

verus! {

/// The mathematical value of a canvas.
pub struct Grid {
    pub width: nat,
    pub height: nat,
    /// The pixels row by row, each row from left to right.
    pub pixels: Seq<Color>,
}

impl Grid {
    /// There is one pixel for each position.
    pub open spec fn wf(self) -> bool {
        self.pixels.len() == self.width * self.height
    }

    /// Whether `(x, y)` is a position of the grid.
    pub open spec fn contains(self, x: int, y: int) -> bool {
        0 <= x < self.width && 0 <= y < self.height
    }

    /// Where the pixel at `(x, y)` stands in `pixels`.
    pub open spec fn index_of(self, x: int, y: int) -> int {
        y * self.width + x
    }

    /// The pixel at `(x, y)`.
    pub open spec fn pixel(self, x: int, y: int) -> Color {
        self.pixels[self.index_of(x, y)]
    }

    /// The grid with the pixel at `(x, y)` replaced by `color`.
    pub open spec fn with_pixel(self, x: int, y: int, color: Color) -> Grid {
        Grid { pixels: self.pixels.update(self.index_of(x, y), color), ..self }
    }

    /// The grid after a command: the command's color composited over the
    /// pixel it names, or the same grid where it names none.
    pub open spec fn painted(self, command: PixelCommand) -> Grid {
        let x = command.x as int;
        let y = command.y as int;
        if self.contains(x, y) {
            self.with_pixel(x, y, over(self.pixel(x, y), command.color))
        } else {
            self
        }
    }
}

/// Positions inside the grid have indices inside `pixels`.
pub proof fn lemma_index_in_range(width: nat, height: nat, x: int, y: int)
    requires
        0 <= x < width,
        0 <= y < height,
    ensures
        0 <= y * width + x < width * height,
{
    assert(y * width + x < width * height) by (nonlinear_arith)
        requires
            0 <= x < width,
            0 <= y < height,
    ;
    assert(0 <= y * width + x) by (nonlinear_arith)
        requires
            0 <= x < width,
            0 <= y < height,
    ;
}

/// Different positions of a row-major grid have different indices.
pub proof fn lemma_index_injective(width: nat, x1: int, y1: int, x2: int, y2: int)
    requires
        0 <= x1 < width,
        0 <= x2 < width,
        0 <= y1,
        0 <= y2,
        y1 * width + x1 == y2 * width + x2,
    ensures
        x1 == x2 && y1 == y2,
{
    assert(y1 == y2) by (nonlinear_arith)
        requires
            0 <= x1 < width,
            0 <= x2 < width,
            0 <= y1,
            0 <= y2,
            y1 * width + x1 == y2 * width + x2,
    ;
}

/// A command that names no position of the grid changes nothing.
pub proof fn lemma_paint_outside(grid: Grid, command: PixelCommand)
    requires
        command.x >= grid.width || command.y >= grid.height,
    ensures
        grid.painted(command) == grid,
{
}

/// A command changes the size of the grid never, and no pixel but the one
/// it names.
pub proof fn lemma_paint_elsewhere(grid: Grid, command: PixelCommand, x: int, y: int)
    requires
        grid.wf(),
        grid.contains(x, y),
        x != command.x || y != command.y,
    ensures
        grid.painted(command).wf(),
        grid.painted(command).width == grid.width,
        grid.painted(command).height == grid.height,
        grid.painted(command).pixel(x, y) == grid.pixel(x, y),
{
    let cx = command.x as int;
    let cy = command.y as int;
    if grid.contains(cx, cy) {
        lemma_index_in_range(grid.width, grid.height, cx, cy);
        lemma_index_in_range(grid.width, grid.height, x, y);
        if grid.index_of(cx, cy) == grid.index_of(x, y) {
            lemma_index_injective(grid.width, cx, cy, x, y);
        }
    }
}

/// The pixel that a command names becomes the command's color composited
/// over what was there.
pub proof fn lemma_paint_target(grid: Grid, command: PixelCommand)
    requires
        grid.wf(),
        grid.contains(command.x as int, command.y as int),
    ensures
        grid.painted(command).pixel(command.x as int, command.y as int) == over(
            grid.pixel(command.x as int, command.y as int),
            command.color,
        ),
{
    lemma_index_in_range(grid.width, grid.height, command.x as int, command.y as int);
}

/// A fully opaque command sets the pixel it names to exactly its color and
/// leaves every other pixel as it was.
pub proof fn lemma_paint_opaque(grid: Grid, command: PixelCommand)
    requires
        grid.wf(),
        grid.contains(command.x as int, command.y as int),
        command.color.a == 255,
    ensures
        grid.painted(command).pixel(command.x as int, command.y as int) == command.color,
        forall|x: int, y: int|
            grid.contains(x, y) && (x != command.x || y != command.y) ==> #[trigger] grid.painted(
                command,
            ).pixel(x, y) == grid.pixel(x, y),
{
    lemma_paint_target(grid, command);
    assert forall|x: int, y: int|
        grid.contains(x, y) && (x != command.x || y != command.y) implies #[trigger] grid.painted(
        command,
    ).pixel(x, y) == grid.pixel(x, y) by {
        lemma_paint_elsewhere(grid, command, x, y);
    }
}

/// A fully transparent command leaves the whole grid as it was.
pub proof fn lemma_paint_transparent(grid: Grid, command: PixelCommand)
    requires
        grid.wf(),
        command.color.a == 0,
    ensures
        grid.painted(command) == grid,
{
    let cx = command.x as int;
    let cy = command.y as int;
    if grid.contains(cx, cy) {
        lemma_index_in_range(grid.width, grid.height, cx, cy);
        assert(grid.painted(command).pixels =~= grid.pixels);
    }
}

/// The pixels as raw bytes: four for each pixel, in the order `r, g, b, a`.
pub open spec fn bytes_of(pixels: Seq<Color>) -> Seq<u8>
    decreases pixels.len(),
{
    if pixels.len() == 0 {
        Seq::<u8>::empty()
    } else {
        bytes_of(pixels.drop_last()) + channels(pixels.last())
    }
}

/// The raw bytes hold each pixel's channels at four times its index.
pub proof fn lemma_bytes_of(pixels: Seq<Color>)
    ensures
        bytes_of(pixels).len() == 4 * pixels.len(),
        forall|i: int|
            0 <= i < pixels.len() ==> channels(#[trigger] pixels[i]) == bytes_of(pixels).subrange(
                4 * i,
                4 * i + 4,
            ),
    decreases pixels.len(),
{
    if pixels.len() > 0 {
        let front = pixels.drop_last();
        lemma_bytes_of(front);
        assert forall|i: int| 0 <= i < pixels.len() implies channels(#[trigger] pixels[i])
            == bytes_of(pixels).subrange(4 * i, 4 * i + 4) by {
            if i < front.len() {
                assert(front[i] == pixels[i]);
                assert(bytes_of(front).subrange(4 * i, 4 * i + 4) =~= bytes_of(pixels).subrange(
                    4 * i,
                    4 * i + 4,
                ));
            } else {
                assert(channels(pixels.last()) =~= bytes_of(pixels).subrange(4 * i, 4 * i + 4));
            }
        }
    }
}

/// Different pixels have different raw bytes.
pub proof fn lemma_bytes_of_injective(a: Seq<Color>, b: Seq<Color>)
    requires
        bytes_of(a) == bytes_of(b),
    ensures
        a == b,
{
    lemma_bytes_of(a);
    lemma_bytes_of(b);
    assert(a.len() == b.len());
    assert forall|i: int| 0 <= i < a.len() implies a[i] == b[i] by {
        let ca = channels(a[i]);
        let cb = channels(b[i]);
        assert(ca == cb);
        assert(ca[0] == cb[0] && ca[1] == cb[1] && ca[2] == cb[2] && ca[3] == cb[3]);
    }
    assert(a =~= b);
}

/// A raster image in memory.
#[derive(Debug)]
pub struct Canvas {
    width: u32,
    height: u32,
    pixels: Vec<Color>,
}

impl View for Canvas {
    type V = Grid;

    closed spec fn view(&self) -> Grid {
        Grid { width: self.width as nat, height: self.height as nat, pixels: self.pixels@ }
    }
}

impl Canvas {
    #[verifier::type_invariant]
    spec fn well_formed(self) -> bool {
        self.pixels@.len() == self.width * self.height
    }

    /// Makes a canvas of the given size from its pixels, row by row.
    /// `None` when the number of pixels is not `width * height`.
    pub fn from_pixels(width: u32, height: u32, pixels: Vec<Color>) -> (res: Option<Canvas>)
        ensures
            res is Some <==> pixels@.len() == width * height,
            res is Some ==> res->0@.width == width && res->0@.height == height,
            res is Some ==> res->0@.pixels == pixels@,
    {
        assert(width * height <= u64::MAX) by (nonlinear_arith)
            requires
                0 <= width <= 0xffff_ffff,
                0 <= height <= 0xffff_ffff,
        ;
        let area: u64 = (width as u64) * (height as u64);
        if pixels.len() as u64 == area {
            Some(Canvas { width, height, pixels })
        } else {
            None
        }
    }

    /// Makes a canvas of the given size from raw bytes, four for each
    /// pixel in the order `r, g, b, a`, row by row. `None` when the number of
    /// bytes is not `4 * width * height`.
    pub fn from_rgba(width: u32, height: u32, raw: &Vec<u8>) -> (res: Option<Canvas>)
        ensures
            res is Some <==> raw@.len() == 4 * (width * height),
            res is Some ==> res->0@.width == width && res->0@.height == height,
            res is Some ==> res->0@.wf(),
            res is Some ==> bytes_of(res->0@.pixels) == raw@,
    {
        assert(width * height <= 0xffff_fffe_0000_0001) by (nonlinear_arith)
            requires
                0 <= width <= 0xffff_ffff,
                0 <= height <= 0xffff_ffff,
        ;
        let area: u64 = (width as u64) * (height as u64);
        let len: u64 = raw.len() as u64;
        if len % 4 != 0 || len / 4 != area {
            return None;
        }
        let count: usize = raw.len() / 4;
        let mut pixels: Vec<Color> = Vec::new();
        let mut i: usize = 0;
        while i < count
            invariant
                0 <= i <= count,
                raw@.len() == 4 * count,
                4 * count <= usize::MAX,
                pixels@.len() == i,
                bytes_of(pixels@) == raw@.take(4 * i),
            decreases count - i,
        {
            let color = Color {
                r: raw[4 * i],
                g: raw[4 * i + 1],
                b: raw[4 * i + 2],
                a: raw[4 * i + 3],
            };
            let ghost before = pixels@;
            pixels.push(color);
            proof {
                assert(pixels@.drop_last() =~= before);
                assert(pixels@.last() == color);
                assert(raw@.take(4 * i) + channels(color) =~= raw@.take(4 * (i + 1)));
            }
            i = i + 1;
        }
        proof {
            assert(raw@.take(4 * i) =~= raw@);
        }
        Some(Canvas { width, height, pixels })
    }

    /// The canvas as raw bytes, four for each pixel in the order
    /// `r, g, b, a`, row by row.
    pub fn to_rgba(&self) -> (raw: Vec<u8>)
        ensures
            raw@ == bytes_of(self@.pixels),
            self@.wf(),
    {
        proof {
            use_type_invariant(self);
        }
        let mut raw: Vec<u8> = Vec::new();
        let mut i: usize = 0;
        while i < self.pixels.len()
            invariant
                0 <= i <= self.pixels.len(),
                raw@ == bytes_of(self.pixels@.take(i as int)),
            decreases self.pixels.len() - i,
        {
            let color: Color = self.pixels[i];
            raw.push(color.r);
            raw.push(color.g);
            raw.push(color.b);
            raw.push(color.a);
            proof {
                let next = self.pixels@.take(i + 1);
                assert(next.drop_last() =~= self.pixels@.take(i as int));
                assert(next.last() == color);
                assert(raw@ =~= bytes_of(next.drop_last()) + channels(color));
            }
            i = i + 1;
        }
        proof {
            assert(self.pixels@.take(i as int) =~= self.pixels@);
        }
        raw
    }

    /// The number of columns.
    pub fn width(&self) -> (w: u32)
        ensures
            w == self@.width,
            self@.wf(),
    {
        proof {
            use_type_invariant(self);
        }
        self.width
    }

    /// The number of rows.
    pub fn height(&self) -> (h: u32)
        ensures
            h == self@.height,
            self@.wf(),
    {
        proof {
            use_type_invariant(self);
        }
        self.height
    }

    /// The pixels row by row, one for each position.
    pub fn pixels(&self) -> (p: &Vec<Color>)
        ensures
            p@ == self@.pixels,
            self@.wf(),
    {
        proof {
            use_type_invariant(self);
        }
        &self.pixels
    }

    /// Where the pixel at `(x, y)` stands among the pixels.
    fn offset(&self, x: u32, y: u32) -> (i: usize)
        requires
            self@.contains(x as int, y as int),
        ensures
            i == self@.index_of(x as int, y as int),
            i < self@.pixels.len(),
    {
        proof {
            use_type_invariant(self);
            lemma_index_in_range(self.width as nat, self.height as nat, x as int, y as int);
            assert(self.pixels.len() <= usize::MAX);
            assert(0 <= y * self.width) by (nonlinear_arith);
        }
        let i: u64 = (y as u64) * (self.width as u64) + (x as u64);
        i as usize
    }

    /// The pixel at `(x, y)`, or `None` outside the canvas.
    pub fn get_pixel(&self, x: u32, y: u32) -> (res: Option<Color>)
        ensures
            self@.contains(x as int, y as int) ==> res == Some(self@.pixel(x as int, y as int)),
            !self@.contains(x as int, y as int) ==> res is None,
    {
        if x < self.width && y < self.height {
            let i: usize = self.offset(x, y);
            Some(self.pixels[i])
        } else {
            None
        }
    }

    /// Replaces the pixel at `(x, y)`. Outside the canvas nothing changes.
    /// Returns whether a pixel was written.
    pub fn put_pixel(&mut self, x: u32, y: u32, color: Color) -> (written: bool)
        ensures
            written == old(self)@.contains(x as int, y as int),
            written ==> final(self)@ == old(self)@.with_pixel(x as int, y as int, color),
            !written ==> final(self)@ == old(self)@,
    {
        if x < self.width && y < self.height {
            let i: usize = self.offset(x, y);
            proof {
                use_type_invariant(&*self);
            }
            self.pixels[i] = color;
            true
        } else {
            false
        }
    }

    /// Applies a command: composites its color over the pixel it names.
    /// A command that names a position outside the canvas changes nothing.
    /// Returns whether a pixel was written.
    pub fn paint(&mut self, command: &PixelCommand) -> (written: bool)
        ensures
            written == old(self)@.contains(command.x as int, command.y as int),
            final(self)@ == old(self)@.painted(*command),
    {
        match self.get_pixel(command.x, command.y) {
            Some(under) => {
                let mixed: Color = blend(under, command.color);
                self.put_pixel(command.x, command.y, mixed)
            },
            None => false,
        }
    }
}

} // verus!
