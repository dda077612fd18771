use crate::scalar::Scalar;
use crate::vec3::Color;
use crate::vec3::Point3;
use crate::vec3::Vec3;
use std::sync::Arc;
use vstd::prelude::*;

verus! {

/// A colour for every place on a surface.
///
/// An implementation that does its arithmetic outside verified code leaves
/// `color_at` as it stands here. The body given here says nothing of such
/// an implementation: it is one unknown value, written only so that none
/// has to be written elsewhere, and no proof in this library rests on it.
pub trait Texture: Sync + Send {
    /// The colour at surface coordinates `u`, `v` and the point `point`.
    open spec fn color_at(&self, u: Scalar, v: Scalar, point: Point3) -> Color {
        arbitrary()
    }

    fn value(&self, u: Scalar, v: Scalar, point: &Point3) -> (c: Color)
        ensures
            c == self.color_at(u, v, *point),
    ;
}

/// One colour everywhere.
pub struct SolidColor {
    pub color: Color,
}

impl SolidColor {
    pub fn new(color: Color) -> (r: Arc<SolidColor>)
        ensures
            r.color == color,
    {
        Arc::new(SolidColor { color })
    }
}

impl Texture for SolidColor {
    open spec fn color_at(&self, u: Scalar, v: Scalar, point: Point3) -> Color {
        self.color
    }

    fn value(&self, _u: Scalar, _v: Scalar, _point: &Point3) -> (c: Color) {
        self.color
    }
}

/// Two textures laid out as a checkerboard.
pub struct CheckerTexture<E, O> {
    pub even: Arc<E>,
    pub odd: Arc<O>,
    pub size: Scalar,
}

impl<E: Texture, O: Texture> CheckerTexture<E, O> {
    /// The colour of the board where the product of the two sines is
    /// `sines`: that of the odd texture where the product is below zero,
    /// else that of the even one.
    pub open spec fn color_at(self, sines: Scalar, u: Scalar, v: Scalar, point: Point3) -> Color {
        if sines.less(Scalar { bits: 0 }) {
            self.odd.color_at(u, v, point)
        } else {
            self.even.color_at(u, v, point)
        }
    }

    pub fn new(even: Arc<E>, odd: Arc<O>, size: Scalar) -> (r: Arc<CheckerTexture<E, O>>)
        ensures
            *r == (CheckerTexture { even, odd, size }),
    {
        Arc::new(CheckerTexture { even, odd, size })
    }

    /// The colour at `u`, `v`, `point`, where `sines` is the product of the
    /// sines of `size * u` and of `size * v`.
    pub fn value(&self, sines: Scalar, u: Scalar, v: Scalar, point: &Point3) -> (c: Color)
        ensures
            c == self.color_at(sines, u, v, *point),
    {
        if sines < Scalar::zero() {
            self.odd.value(u, v, point)
        } else {
            self.even.value(u, v, point)
        }
    }
}

/// The surface coordinates themselves, shown as red and green.
pub struct DebugUVTexture;

impl DebugUVTexture {
    pub fn new() -> (r: Arc<DebugUVTexture>)
        ensures
            forall|u: Scalar, v: Scalar, point: Point3|
                #[trigger] r.color_at(u, v, point) == (Vec3 { x: u, y: v, z: Scalar { bits: 0 } }),
    {
        Arc::new(DebugUVTexture)
    }
}

impl Texture for DebugUVTexture {
    open spec fn color_at(&self, u: Scalar, v: Scalar, point: Point3) -> Color {
        Vec3 { x: u, y: v, z: Scalar { bits: 0 } }
    }

    fn value(&self, u: Scalar, v: Scalar, _point: &Point3) -> (c: Color) {
        Color::new(u, v, Scalar::zero())
    }
}

/// How an image is sampled between its pixels.
pub enum TextureFiltering {
    Linear,
    Nearest,
}

/// Whether an image is sampled upside down.
pub enum TextureFlip {
    AsIs,
    FlipY,
}

/// The red, green and blue of one pixel.
#[derive(Clone, Copy, Debug)]
pub struct Rgb {
    pub r: u8,
    pub g: u8,
    pub b: u8,
}

/// The pixels round a place in an image, as the caller has worked them out:
/// the column and row nearest to the place, and those just before and just
/// behind it.
#[derive(Clone, Copy, Debug)]
pub struct Footprint {
    pub near_x: u32,
    pub near_y: u32,
    pub from_x: u32,
    pub from_y: u32,
    pub to_x: u32,
    pub to_y: u32,
}

/// What an image holds at a place.
pub enum Texels {
    /// The nearest pixel.
    Nearest(Rgb),
    /// The four pixels round the place: before and behind it in the row, in
    /// the row before and the row behind.
    Linear { c00: Rgb, c10: Rgb, c01: Rgb, c11: Rgb },
}

/// A texture read from an image: rows of pixels from the top down, three
/// bytes to the pixel.
pub struct ImageTexture {
    pub pixels: Vec<u8>,
    pub width: u32,
    pub height: u32,
    pub filtering: TextureFiltering,
    pub flip: TextureFlip,
    pub repeating: crate::vec2::Vec2,
}

impl ImageTexture {
    /// The buffer holds exactly the pixels of the image.
    pub open spec fn wf(self) -> bool {
        self.pixels@.len() == self.width * self.height * 3
    }

    /// The pixel in column `x` of row `y`.
    pub open spec fn pixel(self, x: u32, y: u32) -> Rgb {
        let at = (y * self.width + x) * 3;
        Rgb { r: self.pixels@[at], g: self.pixels@[at + 1], b: self.pixels@[at + 2] }
    }

    /// Whether the pixels that the filter reads lie in the image.
    pub open spec fn covers(self, at: Footprint) -> bool {
        match self.filtering {
            TextureFiltering::Nearest => at.near_x < self.width && at.near_y < self.height,
            TextureFiltering::Linear => {
                &&& at.from_x < self.width && at.to_x < self.width
                &&& at.from_y < self.height && at.to_y < self.height
            },
        }
    }

    /// What the filter reads at a place.
    pub open spec fn read(self, at: Footprint) -> Texels {
        match self.filtering {
            TextureFiltering::Nearest => Texels::Nearest(self.pixel(at.near_x, at.near_y)),
            TextureFiltering::Linear => Texels::Linear {
                c00: self.pixel(at.from_x, at.from_y),
                c10: self.pixel(at.to_x, at.from_y),
                c01: self.pixel(at.from_x, at.to_y),
                c11: self.pixel(at.to_x, at.to_y),
            },
        }
    }

    pub fn new(
        pixels: Vec<u8>,
        width: u32,
        height: u32,
        filtering: TextureFiltering,
        flip: TextureFlip,
        repeating: crate::vec2::Vec2,
    ) -> (r: Arc<ImageTexture>)
        requires
            pixels@.len() == width * height * 3,
        ensures
            r.wf(),
            *r == (ImageTexture { pixels, width, height, filtering, flip, repeating }),
    {
        Arc::new(ImageTexture { pixels, width, height, filtering, flip, repeating })
    }

    /// The pixel in column `x` of row `y`.
    pub fn get_pixel(&self, x: u32, y: u32) -> (r: Rgb)
        requires
            self.wf(),
            x < self.width,
            y < self.height,
        ensures
            r == self.pixel(x, y),
    {
        let total = self.pixels.len();
        proof {
            let w = self.width as int;
            let h = self.height as int;
            assert(0 <= y * w && y * w + x < w * h) by (nonlinear_arith)
                requires
                    0 <= x < w,
                    0 <= y < h,
            ;
            assert(total == w * h * 3);
            assert((y * w + x) * 3 + 2 < total);
            assert((y as usize) * (self.width as usize) == y * w) by (nonlinear_arith)
                requires
                    y as usize == y,
                    self.width as usize == w,
            ;
        }
        let row: usize = y as usize * self.width as usize;
        let at: usize = (row + x as usize) * 3;
        Rgb { r: self.pixels[at], g: self.pixels[at + 1], b: self.pixels[at + 2] }
    }

    /// The height at which the image is read for the surface coordinate
    /// `v`: `v` itself, or, where the image is flipped, `flipped`, which is
    /// one minus `v`.
    pub fn oriented(&self, v: Scalar, flipped: Scalar) -> (r: Scalar)
        ensures
            r == (match self.flip {
                TextureFlip::AsIs => v,
                TextureFlip::FlipY => flipped,
            }),
    {
        match self.flip {
            TextureFlip::AsIs => v,
            TextureFlip::FlipY => flipped,
        }
    }

    /// Whether the pixels that the filter reads at a place lie in the image.
    pub fn reaches(&self, at: &Footprint) -> (ok: bool)
        ensures
            ok == self.covers(*at),
    {
        match self.filtering {
            TextureFiltering::Nearest => at.near_x < self.width && at.near_y < self.height,
            TextureFiltering::Linear => {
                at.from_x < self.width && at.to_x < self.width && at.from_y < self.height
                    && at.to_y < self.height
            },
        }
    }

    /// The pixels that the filter reads at a place: the nearest one, or the
    /// four round it.
    pub fn value(&self, at: &Footprint) -> (r: Texels)
        requires
            self.wf(),
            self.covers(*at),
        ensures
            r == self.read(*at),
    {
        match self.filtering {
            TextureFiltering::Nearest => Texels::Nearest(self.get_pixel(at.near_x, at.near_y)),
            TextureFiltering::Linear => {
                let c00 = self.get_pixel(at.from_x, at.from_y);
                let c10 = self.get_pixel(at.to_x, at.from_y);
                let c01 = self.get_pixel(at.from_x, at.to_y);
                let c11 = self.get_pixel(at.to_x, at.to_y);
                Texels::Linear { c00, c10, c01, c11 }
            },
        }
    }
}

} // verus!
