//! The pixel buffer: a width x height grid of radiance triples in
//! row-major order, y = 0 at the top, and the 8-bit channel
//! quantization shared by the file encoders.

use vstd::prelude::*;
use crate::num::{FX_ONE, tdiv, tdiv64, clamp_fx, clamp_fx_s};
use crate::vec3::Vec3;

verus! {

/// A raster of radiance triples, row-major, top row first.
pub struct Image {
    pub width: usize,
    pub height: usize,
    pub data: Vec<Vec3>,
}

/// Buffers the encoders accept: positive dimensions within the
/// supported raster size, and one sample per cell.
pub open spec fn image_wf(img: Image) -> bool {
    &&& 1 <= img.width <= 16384
    &&& 1 <= img.height <= 16384
    &&& img.data@.len() == img.width * img.height
}

/// A radiance channel as an 8-bit value: clamp into `[0, 1]`, scale by
/// 255, truncate.
pub open spec fn byte_of(c: int) -> int {
    tdiv(clamp_fx_s(c) * 255, FX_ONE as int)
}

/// The row-major R, G, B byte stream of a pixel sequence.
pub open spec fn quant_bytes(data: Seq<Vec3>) -> Seq<u8> {
    Seq::new(
        3 * data.len(),
        |i: int|
            {
                let v = data[i / 3];
                if i % 3 == 0 {
                    byte_of(v.x as int) as u8
                } else if i % 3 == 1 {
                    byte_of(v.y as int) as u8
                } else {
                    byte_of(v.z as int) as u8
                }
            },
    )
}

/// The radiance triples encoded by a byte stream: each channel byte
/// scaled back to the fixed-point range (257 = FX_ONE / 255).
pub open spec fn dequant_data(px: Seq<u8>) -> Seq<Vec3> {
    Seq::new(
        px.len() / 3,
        |k: int|
            Vec3 {
                x: (257 * px[3 * k]) as i64,
                y: (257 * px[3 * k + 1]) as i64,
                z: (257 * px[3 * k + 2]) as i64,
            },
    )
}

/// Quantize one radiance channel to its 8-bit value.
pub fn channel_byte(c: i64) -> (b: u8)
    ensures
        b == byte_of(c as int),
{
    let cl: i64 = clamp_fx(c);
    tdiv64(cl * 255, FX_ONE) as u8
}

impl Image {
    /// A buffer filled with the default colour, the all-ones triple.
    pub fn create(width: usize, height: usize) -> (img: Image)
        requires
            1 <= width <= 16384,
            1 <= height <= 16384,
        ensures
            image_wf(img),
            img.width == width,
            img.height == height,
            forall|k: int|
                0 <= k < img.data@.len() ==> #[trigger] img.data@[k] == (Vec3 {
                    x: FX_ONE,
                    y: FX_ONE,
                    z: FX_ONE,
                }),
    {
        Image::create_with_colour(width, height, FX_ONE)
    }

    /// A buffer filled with the grey level `default_colour` in every
    /// channel.
    pub fn create_with_colour(width: usize, height: usize, default_colour: i64) -> (img: Image)
        requires
            1 <= width <= 16384,
            1 <= height <= 16384,
        ensures
            image_wf(img),
            img.width == width,
            img.height == height,
            forall|k: int|
                0 <= k < img.data@.len() ==> #[trigger] img.data@[k] == (Vec3 {
                    x: default_colour,
                    y: default_colour,
                    z: default_colour,
                }),
    {
        proof {
            assert(width * height <= 0x1000_0000) by (nonlinear_arith)
                requires
                    width <= 16384,
                    height <= 16384,
                {
                };
        }
        let colour = Vec3 { x: default_colour, y: default_colour, z: default_colour };
        let n: usize = width * height;
        let mut data: Vec<Vec3> = Vec::new();
        while data.len() < n
            invariant
                data@.len() <= n,
                forall|k: int| 0 <= k < data@.len() ==> #[trigger] data@[k] == colour,
            decreases n - data.len(),
        {
            data.push(colour);
        }
        Image { width, height, data }
    }

    /// Overwrite the pixel at column `x`, row `y`.
    pub fn set_pixel(&mut self, x: usize, y: usize, rgb: Vec3)
        requires
            image_wf(*old(self)),
            x < old(self).width,
            y < old(self).height,
        ensures
            final(self).width == old(self).width,
            final(self).height == old(self).height,
            final(self).data@ == old(self).data@.update(x + y * old(self).width, rgb),
            image_wf(*final(self)),
    {
        proof {
            lemma_pixel_index(self.width as int, self.height as int, x as int, y as int);
        }
        let i: usize = x + y * self.width;
        self.data.set(i, rgb);
    }

    /// Read the pixel at column `x`, row `y`.
    pub fn get_pixel(&self, x: usize, y: usize) -> (rgb: Vec3)
        requires
            image_wf(*self),
            x < self.width,
            y < self.height,
        ensures
            rgb == self.data@[x + y * self.width],
    {
        proof {
            lemma_pixel_index(self.width as int, self.height as int, x as int, y as int);
        }
        self.data[x + y * self.width]
    }
}

/// A row-major pixel index is within the buffer.
pub proof fn lemma_pixel_index(w: int, h: int, x: int, y: int)
    by (nonlinear_arith)
    requires
        0 <= x < w <= 16384,
        0 <= y < h <= 16384,
    ensures
        0 <= x + y * w < w * h <= 0x1000_0000,
{
}

/// Quantization is exact on dequantized bytes: scaling an 8-bit channel
/// into the fixed-point range and quantizing again returns the byte.
pub proof fn lemma_quant_of_dequant(b: int)
    requires
        0 <= b <= 255,
    ensures
        byte_of(257 * b) == b,
{
    assert(0 <= 257 * b <= FX_ONE);
    assert(clamp_fx_s(257 * b) == 257 * b);
    assert((257 * b * 255) / (FX_ONE as int) == b) by (nonlinear_arith)
        requires
            0 <= b <= 255,
        {
        };
}

/// Dequantization is within one quantization step of the clamped
/// channel: the round trip loses less than 1/255 of the unit range.
pub proof fn lemma_dequant_error(c: int)
    ensures
        0 <= byte_of(c) <= 255,
        -257 < 257 * byte_of(c) - clamp_fx_s(c) < 257,
{
    let cl = clamp_fx_s(c);
    assert(0 <= cl <= FX_ONE);
    assert(byte_of(c) == (cl * 255) / (FX_ONE as int));
    assert(0 <= (cl * 255) / (FX_ONE as int) <= 255);
    assert((cl * 255) / (FX_ONE as int) == cl / 257) by (nonlinear_arith)
        requires
            0 <= cl <= FX_ONE,
        {
        };
    assert(257 * (cl / 257) <= cl < 257 * (cl / 257 + 1));
}

} // verus!
