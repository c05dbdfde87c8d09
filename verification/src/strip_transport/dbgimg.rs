//! The diagnostic sink: each frame becomes one column of an image, and a full
//! image is handed out to be kept.

use vstd::prelude::*;
use crate::color::Rgb8;

verus! {

/// An image of 8-bit colours, held by the `image` crate.
#[verifier::external_body]
#[derive(Debug)]
pub struct Canvas {
    img: image::RgbImage,
}

/// The width and the height of a canvas, in pixels.
pub uninterp spec fn canvas_size(canvas: Canvas) -> (nat, nat);

/// The colours of a canvas by position: column, then row.
pub uninterp spec fn canvas_pixels(canvas: Canvas) -> Map<(nat, nat), Rgb8>;

/// The bytes of an image of the given size and colours as the `image` crate
/// lays them out: row after row, three bytes for each position.
pub open spec fn raster(size: (nat, nat), pixels: Map<(nat, nat), Rgb8>) -> Seq<u8> {
    Seq::new(
        3 * size.0 * size.1,
        |k: int|
            {
                let c = pixels[((k / 3 % (size.0 as int)) as nat, (k / 3 / (size.0 as int)) as nat)];
                if k % 3 == 0 {
                    c.r
                } else if k % 3 == 1 {
                    c.g
                } else {
                    c.b
                }
            },
    )
}

impl Canvas {
    /// `ImageBuffer::new`: an image of the given size in which every channel
    /// of every position is zero.
    #[verifier::external_body]
    pub(crate) fn blank(width: u32, height: u32) -> (canvas: Canvas)
        requires
            3 * width * height <= isize::MAX,
        ensures
            canvas_size(canvas) == (width as nat, height as nat),
            forall|x: nat, y: nat|
                x < width && y < height ==> canvas_pixels(canvas).contains_pair(
                    (x, y),
                    Rgb8 { r: 0, g: 0, b: 0 },
                ),
    {
        Canvas { img: image::RgbImage::new(width, height) }
    }

    /// `ImageBuffer::width`: the width that the image was made with.
    #[verifier::external_body]
    pub(crate) fn width(&self) -> (w: u32)
        ensures
            w == canvas_size(*self).0,
    {
        self.img.width()
    }

    /// `ImageBuffer::height`: the height that the image was made with.
    #[verifier::external_body]
    pub(crate) fn height(&self) -> (h: u32)
        ensures
            h == canvas_size(*self).1,
    {
        self.img.height()
    }

    /// `ImageBuffer::put_pixel`: sets the colour at one position inside the
    /// image and changes nothing else.
    #[verifier::external_body]
    pub(crate) fn put(&mut self, x: u32, y: u32, c: Rgb8)
        requires
            x < canvas_size(*old(self)).0,
            y < canvas_size(*old(self)).1,
        ensures
            canvas_size(*final(self)) == canvas_size(*old(self)),
            canvas_pixels(*final(self)) == canvas_pixels(*old(self)).insert(
                (x as nat, y as nat),
                c,
            ),
    {
        self.img.put_pixel(x, y, image::Rgb([c.r, c.g, c.b]))
    }

    /// `ImageBuffer::as_raw`, copied: the bytes of the image, row after row.
    #[verifier::external_body]
    pub(crate) fn bytes(&self) -> (data: Vec<u8>)
        ensures
            data@ == raster(canvas_size(*self), canvas_pixels(*self)),
    {
        self.img.as_raw().clone()
    }
}

/// A sink that draws each frame as one column of an image, top to bottom,
/// and moves one column to the right with every frame.
#[derive(Debug)]
pub struct DebugImage {
    img: Canvas,
    y: u32,
    n: u32,
}

/// A full image, to be kept under its number.
#[derive(Debug, PartialEq, Eq)]
pub struct Capture {
    pub index: u32,
    pub width: u32,
    pub height: u32,
    pub data: Vec<u8>,
}

/// The colours `m` with the first `rows` of `colors` drawn down column `x`.
pub open spec fn with_column(m: Map<(nat, nat), Rgb8>, x: nat, colors: Seq<Rgb8>, rows: nat) -> Map<
    (nat, nat),
    Rgb8,
> {
    Map::new(
        |p: (nat, nat)| m.dom().contains(p) || (p.0 == x && p.1 < rows),
        |p: (nat, nat)|
            if p.0 == x && p.1 < rows {
                colors[p.1 as int]
            } else {
                m[p]
            },
    )
}

/// How many rows of a column a frame of `len` colours fills in an image of
/// the given height.
pub open spec fn rows_drawn(len: nat, height: nat) -> nat {
    if len <= height {
        len
    } else {
        height
    }
}

/// What one write does: `before` and `after` are the sink around it, `out`
/// is what it hands out.
pub open spec fn drawn(before: DebugImage, after: DebugImage, pixels: Seq<Rgb8>, out: Option<Capture>) -> bool {
    &&& after.size() == before.size()
    &&& before.size().0 == 0 ==> {
        &&& out.is_none()
        &&& after.pixels() == before.pixels()
        &&& after.column() == before.column()
        &&& after.number() == before.number()
    }
    &&& before.size().0 > 0 ==> {
        &&& after.pixels() == with_column(
            before.pixels(),
            before.column(),
            pixels,
            rows_drawn(pixels.len(), before.size().1),
        )
        &&& after.column() == (before.column() + 1) % before.size().0
        &&& after.column() != 0 ==> out.is_none() && after.number() == before.number()
        &&& after.column() == 0 ==> {
            &&& out.is_some()
            &&& out.unwrap().index == before.number()
            &&& out.unwrap().width == before.size().0
            &&& out.unwrap().height == before.size().1
            &&& out.unwrap().data@ == raster(after.size(), after.pixels())
            &&& after.number() == (if before.number() == u32::MAX {
                0u32
            } else {
                (before.number() + 1) as u32
            })
        }
    }
}

impl DebugImage {
    /// The width and the height of the image.
    pub closed spec fn size(&self) -> (nat, nat) {
        canvas_size(self.img)
    }

    /// The colours drawn so far, by column and row.
    pub closed spec fn pixels(&self) -> Map<(nat, nat), Rgb8> {
        canvas_pixels(self.img)
    }

    /// The column that the next frame is drawn in.
    pub closed spec fn column(&self) -> nat {
        if self.y < canvas_size(self.img).0 {
            self.y as nat
        } else {
            0
        }
    }

    /// The number that the next full image is kept under.
    pub closed spec fn number(&self) -> u32 {
        self.n
    }

    /// A sink with a dark image of the given size, about to draw its first
    /// column.
    pub fn new(width: u32, height: u32) -> (d: DebugImage)
        requires
            3 * width * height <= isize::MAX,
        ensures
            d.size() == (width as nat, height as nat),
            d.column() == 0,
            d.number() == 0,
            forall|x: nat, y: nat|
                x < width && y < height ==> d.pixels().contains_pair(
                    (x, y),
                    Rgb8 { r: 0, g: 0, b: 0 },
                ),
    {
        DebugImage { img: Canvas::blank(width, height), n: 0, y: 0 }
    }

    /// Draws `pixels` down the current column, as far as the image is high,
    /// and moves on to the next column. When that was the last column the
    /// image is handed out under its number, and drawing starts over at the
    /// left edge on the same image. An image without columns takes nothing
    /// in and hands nothing out.
    pub fn write(&mut self, pixels: &[Rgb8]) -> (out: Option<Capture>)
        ensures
            drawn(*old(self), *final(self), pixels@, out),
    {
        let width: u32 = self.img.width();
        let height: u32 = self.img.height();
        if width == 0 {
            return None;
        }
        let ghost before = canvas_pixels(self.img);
        let x: u32 = if self.y < width {
            self.y
        } else {
            0
        };
        let mut i: u32 = 0;
        while i < height && (i as usize) < pixels.len()
            invariant
                canvas_size(self.img) == (width as nat, height as nat),
                x < width,
                self.n == old(self).n,
                i <= height,
                i <= pixels.len(),
                canvas_pixels(self.img) =~= with_column(before, x as nat, pixels@, i as nat),
            decreases height - i,
        {
            self.img.put(x, i, pixels[i as usize]);
            i = i + 1;
        }
        assert(i == rows_drawn(pixels@.len(), height as nat));
        let next: u32 = if x + 1 == width {
            0
        } else {
            x + 1
        };
        assert(next == (x + 1) % (width as int)) by {
            if x + 1 == width {
                assert((x + 1) % (width as int) == 0) by (nonlinear_arith)
                    requires
                        x + 1 == width,
                        width > 0,
                ;
            } else {
                assert((x + 1) % (width as int) == x + 1) by (nonlinear_arith)
                    requires
                        0 <= x + 1 < width,
                ;
            }
        }
        self.y = next;
        if next == 0 {
            let capture = Capture { index: self.n, width, height, data: self.img.bytes() };
            self.n = if self.n == u32::MAX {
                0
            } else {
                self.n + 1
            };
            Some(capture)
        } else {
            None
        }
    }
}

} // verus!
