use vstd::prelude::*;
use crate::color::Color;
use crate::grid::{CellRect, lemma_row_major};

verus! {

/// A `width` by `height` image of RGBA pixels, stored row by row.
#[derive(Clone, Debug)]
pub struct Raster {
    pub width: u32,
    pub height: u32,
    pub pixels: Vec<Color>,
}

/// `y * w + x` lies below `w * h` when `(x, y)` lies inside a `w` by `h` image.
pub(crate) proof fn lemma_index_bound(w: int, h: int, x: int, y: int)
    requires
        0 <= x < w,
        0 <= y < h,
    ensures
        0 <= y * w + x < w * h,
        0 <= y * w + x < h * w,
{
    assert(0 <= y * w + x < w * h) by (nonlinear_arith)
        requires 0 <= x < w, 0 <= y < h;
    assert(w * h == h * w) by (nonlinear_arith);
}

impl Raster {
    /// The pixels fill the image exactly, and their RGBA bytes fit in memory.
    pub open spec fn wf(&self) -> bool {
        &&& self.pixels@.len() == self.width * self.height
        &&& self.width * self.height * 4 <= usize::MAX
    }

    /// The pixel at column `x` of row `y`.
    pub open spec fn pixel(&self, x: int, y: int) -> Color {
        self.pixels@[y * self.width + x]
    }

    /// An image from its pixels in row-major order; `None` unless there are
    /// exactly `width * height` of them and their bytes fit in memory.
    pub fn from_pixels(width: u32, height: u32, pixels: Vec<Color>) -> (r: Option<Raster>)
        ensures
            r is Some <==> (pixels@.len() == width * height && width * height * 4 <= usize::MAX),
            r matches Some(img) ==> img.wf() && img.width == width && img.height == height
                && img.pixels@ == pixels@,
    {
        let n = pixels.len();
        proof {
            assert((width as int) * (height as int) <= 0xffff_ffff * 0xffff_ffff) by (nonlinear_arith)
                requires width <= 0xffff_ffff, height <= 0xffff_ffff;
        }
        if n <= usize::MAX / 4 && (n as u128) == (width as u128) * (height as u128) {
            Some(Raster { width, height, pixels })
        } else {
            None
        }
    }

    /// The pixel at column `x` of row `y`.
    pub fn get_pixel(&self, x: u32, y: u32) -> (r: Color)
        requires
            self.wf(),
            x < self.width,
            y < self.height,
        ensures
            r == self.pixel(x as int, y as int),
    {
        proof {
            lemma_index_bound(self.width as int, self.height as int, x as int, y as int);
        }
        self.pixels[y as usize * self.width as usize + x as usize]
    }

    /// The part of the image under `rect`.
    pub fn crop(&self, rect: &CellRect) -> (r: Raster)
        requires
            self.wf(),
            rect.x + rect.width <= self.width,
            rect.y + rect.height <= self.height,
        ensures
            r.wf(),
            r.width == rect.width,
            r.height == rect.height,
            forall|i: int, j: int|
                0 <= i < rect.width && 0 <= j < rect.height ==> #[trigger] r.pixel(i, j)
                    == self.pixel(rect.x + i, rect.y + j),
    {
        let rw = rect.width;
        let rh = rect.height;
        let mut out: Vec<Color> = Vec::new();
        let mut j: u32 = 0;
        while j < rh
            invariant
                self.wf(),
                rw == rect.width,
                rh == rect.height,
                rect.x + rect.width <= self.width,
                rect.y + rect.height <= self.height,
                j <= rh,
                out@.len() == j * rw,
                forall|k: int|
                    0 <= k < out@.len() ==> #[trigger] out@[k] == self.pixel(
                        rect.x + k % (rw as int),
                        rect.y + k / (rw as int),
                    ),
            decreases rh - j,
        {
            let mut i: u32 = 0;
            while i < rw
                invariant
                    self.wf(),
                    rw == rect.width,
                    rh == rect.height,
                    rect.x + rect.width <= self.width,
                    rect.y + rect.height <= self.height,
                    j < rh,
                    i <= rw,
                    out@.len() == j * rw + i,
                    forall|k: int|
                        0 <= k < out@.len() ==> #[trigger] out@[k] == self.pixel(
                            rect.x + k % (rw as int),
                            rect.y + k / (rw as int),
                        ),
                decreases rw - i,
            {
                proof {
                    lemma_row_major(rw as int, j as int, i as int);
                }
                let c = self.get_pixel(rect.x + i, rect.y + j);
                out.push(c);
                i = i + 1;
            }
            proof {
                assert((j + 1) * rw == j * rw + rw) by (nonlinear_arith);
            }
            j = j + 1;
        }
        proof {
            assert(rh * rw <= self.height * self.width) by (nonlinear_arith)
                requires rw <= self.width, rh <= self.height;
            assert(rw * rh == rh * rw) by (nonlinear_arith);
            assert(self.width * self.height == self.height * self.width) by (nonlinear_arith);
        }
        let r = Raster { width: rw, height: rh, pixels: out };
        proof {
            assert forall|i: int, j: int|
                0 <= i < rect.width && 0 <= j < rect.height implies #[trigger] r.pixel(i, j)
                    == self.pixel(rect.x + i, rect.y + j) by {
                lemma_row_major(rw as int, j, i);
                lemma_index_bound(rw as int, rh as int, i, j);
            }
        }
        r
    }
}

/// The interpolation filter used to resample an image.
#[derive(Clone, Copy, Debug, PartialEq, Eq, Structural)]
pub enum Filter {
    /// Catmull-Rom cubic interpolation.
    CatmullRom,
    /// Lanczos windowed sinc of radius three.
    Lanczos3,
}

/// What resampling `pixels`, a `width` by `height` image, to `new_width` by
/// `new_height` with `filter` gives.
pub uninterp spec fn resampled(
    pixels: Seq<Color>,
    width: nat,
    height: nat,
    new_width: nat,
    new_height: nat,
    filter: Filter,
) -> Seq<Color>;

/// Relies on image::imageops::resize: it returns a `new_width` by `new_height`
/// buffer, a plain copy when the size is unchanged; ImageBuffer::from_raw
/// accepts the pixels since they fill the image exactly.
#[verifier::external_body]
pub(crate) fn resample(src: &Raster, new_width: u32, new_height: u32, filter: Filter) -> (r: Raster)
    requires
        src.wf(),
        new_width * new_height * 4 <= usize::MAX,
        src.width * new_height * 4 <= usize::MAX,
    ensures
        r.wf(),
        r.width == new_width,
        r.height == new_height,
        r.pixels@ == resampled(
            src.pixels@,
            src.width as nat,
            src.height as nat,
            new_width as nat,
            new_height as nat,
            filter,
        ),
        (new_width == src.width && new_height == src.height) ==> r.pixels@ == src.pixels@,
{
    let kind = match filter {
        Filter::CatmullRom => image::imageops::FilterType::CatmullRom,
        Filter::Lanczos3 => image::imageops::FilterType::Lanczos3,
    };
    let raw: Vec<u8> = src.pixels.iter().flat_map(|c| [c.r, c.g, c.b, c.a]).collect();
    let buf = image::RgbaImage::from_raw(src.width, src.height, raw).unwrap();
    let out = image::imageops::resize(&buf, new_width, new_height, kind);
    let pixels = out.pixels().map(|p| Color { r: p[0], g: p[1], b: p[2], a: p[3] }).collect();
    Raster { width: new_width, height: new_height, pixels }
}

/// The image resampled to `new_width` by `new_height` with `filter`; `None`
/// when the result, or the intermediate image of the source's width and the
/// new height, would not fit in memory.
pub fn resize_exact(img: &Raster, new_width: u32, new_height: u32, filter: Filter) -> (r: Option<
    Raster,
>)
    requires
        img.wf(),
    ensures
        r is Some <==> (new_width * new_height * 4 <= usize::MAX && img.width * new_height * 4
            <= usize::MAX),
        r matches Some(out) ==> {
            &&& out.wf()
            &&& out.width == new_width
            &&& out.height == new_height
            &&& out.pixels@ == resampled(
                img.pixels@,
                img.width as nat,
                img.height as nat,
                new_width as nat,
                new_height as nat,
                filter,
            )
        },
{
    if fits_in_memory(new_width, new_height) && fits_in_memory(img.width, new_height) {
        Some(resample(img, new_width, new_height, filter))
    } else {
        None
    }
}

/// Whether the RGBA bytes of a `width` by `height` image fit in memory.
pub fn fits_in_memory(width: u32, height: u32) -> (r: bool)
    ensures
        r <==> width * height * 4 <= usize::MAX,
{
    proof {
        assert((width as int) * (height as int) * 4 <= 0xffff_ffff * 0xffff_ffff * 4) by (nonlinear_arith)
            requires width <= 0xffff_ffff, height <= 0xffff_ffff;
        assert((width as int) * (height as int) >= 0) by (nonlinear_arith);
    }
    (width as u128) * (height as u128) * 4 <= usize::MAX as u128
}

} // verus!
