//! The bitmap encoder: 14-byte file header, 40-byte info header, then
//! pixel rows bottom-to-top, three bytes B, G, R per pixel, each row
//! zero-padded to a multiple of four bytes.

use vstd::prelude::*;
use crate::image::{Image, image_wf, byte_of, channel_byte};

verus! {

/// The number of zero bytes appended to each pixel row.
pub open spec fn row_pad(w: int) -> int {
    (4 - (3 * w) % 4) % 4
}

/// The byte stride of one stored row: three bytes per pixel, padded to
/// a multiple of four.
pub open spec fn row_stride(w: int) -> int {
    3 * w + row_pad(w)
}

/// A 32-bit value as four little-endian bytes.
pub open spec fn le32(n: int) -> Seq<u8> {
    seq![
        (n % 256) as u8,
        ((n / 256) % 256) as u8,
        ((n / 65536) % 256) as u8,
        ((n / 16777216) % 256) as u8,
    ]
}

/// The total file size: both headers and the padded pixel data.
pub open spec fn bmp_size(w: int, h: int) -> int {
    54 + h * row_stride(w)
}

/// The 54 header bytes: magic `BM`, file size, reserved zeros, pixel
/// offset 54; then the info header with size 40, dimensions, one
/// plane, 24 bits per pixel, no compression, the padded data size, and
/// zeroed resolution and palette fields.
pub open spec fn bmp_header_s(w: int, h: int) -> Seq<u8> {
    seq![66u8, 77u8] + le32(bmp_size(w, h)) + seq![0u8, 0u8, 0u8, 0u8] + le32(54) + le32(40)
        + le32(w) + le32(h) + seq![1u8, 0u8, 24u8, 0u8] + le32(0) + le32(h * row_stride(w))
        + le32(0) + le32(0) + le32(0) + le32(0)
}

/// The pixel data: rows bottom-to-top; within a row, pixels left to
/// right as B, G, R bytes, then zero padding.
pub open spec fn bmp_body_s(img: Image) -> Seq<u8> {
    let w = img.width as int;
    let h = img.height as int;
    Seq::new(
        (h * row_stride(w)) as nat,
        |i: int|
            {
                let r = i / row_stride(w);
                let c = i % row_stride(w);
                let y = h - 1 - r;
                if c < 3 * w {
                    let v = img.data@[y * w + c / 3];
                    if c % 3 == 0 {
                        byte_of(v.z as int) as u8
                    } else if c % 3 == 1 {
                        byte_of(v.y as int) as u8
                    } else {
                        byte_of(v.x as int) as u8
                    }
                } else {
                    0u8
                }
            },
    )
}

/// The whole bitmap file.
pub open spec fn bmp_bytes_s(img: Image) -> Seq<u8> {
    bmp_header_s(img.width as int, img.height as int) + bmp_body_s(img)
}

/// Append a 32-bit value as four little-endian bytes.
fn push_le32(out: &mut Vec<u8>, n: u32)
    ensures
        final(out)@ == old(out)@ + le32(n as int),
{
    out.push((n % 256) as u8);
    out.push(((n / 256) % 256) as u8);
    out.push(((n / 65536) % 256) as u8);
    out.push(((n / 16777216) % 256) as u8);
    proof {
        assert(out@ =~= old(out)@ + le32(n as int));
    }
}

/// A position within a row, decomposed against the row stride.
proof fn lemma_row_index(r: int, c: int, s: int)
    by (nonlinear_arith)
    requires
        0 <= c < s,
        0 <= r,
    ensures
        (r * s + c) / s == r,
        (r * s + c) % s == c,
{
}

/// Size bounds of the pixel data for supported dimensions.
proof fn lemma_bmp_size_bounds(w: int, h: int)
    by (nonlinear_arith)
    requires
        1 <= w <= 16384,
        1 <= h <= 16384,
    ensures
        3 <= row_stride(w) <= 49155,
        0 < h * row_stride(w) <= 0x3000_3000_0000i64 as int,
        h * row_stride(w) <= 16384 * 49155,
{
}

impl Image {
    /// Encode the buffer as a bitmap file.
    pub fn to_bmp(&self) -> (out: Vec<u8>)
        requires
            image_wf(*self),
        ensures
            out@ == bmp_bytes_s(*self),
    {
        let w: usize = self.width;
        let h: usize = self.height;
        proof {
            lemma_bmp_size_bounds(w as int, h as int);
        }
        let pad: usize = (4 - (3 * w) % 4) % 4;
        let stride: usize = 3 * w + pad;
        proof {
            assert(stride == row_stride(w as int));
            assert(h * stride <= 16384 * 49155) by (nonlinear_arith)
                requires
                    1 <= h <= 16384,
                    stride == row_stride(w as int),
                    1 <= w <= 16384,
                {
                };
        }
        let data_size: usize = h * stride;
        let total: usize = 54 + data_size;

        let mut out: Vec<u8> = Vec::new();
        out.push(66);
        out.push(77);
        push_le32(&mut out, total as u32);
        out.push(0);
        out.push(0);
        out.push(0);
        out.push(0);
        push_le32(&mut out, 54);
        push_le32(&mut out, 40);
        push_le32(&mut out, w as u32);
        push_le32(&mut out, h as u32);
        out.push(1);
        out.push(0);
        out.push(24);
        out.push(0);
        push_le32(&mut out, 0);
        push_le32(&mut out, data_size as u32);
        push_le32(&mut out, 0);
        push_le32(&mut out, 0);
        push_le32(&mut out, 0);
        push_le32(&mut out, 0);
        proof {
            assert(out@ =~= bmp_header_s(w as int, h as int));
        }
        let ghost header = out@;

        let mut r: usize = 0;
        while r < h
            invariant
                image_wf(*self),
                w == self.width,
                h == self.height,
                stride == row_stride(w as int),
                pad == stride - 3 * w,
                r <= h,
                h * stride <= 16384 * 49155,
                r * stride <= h * stride,
                header.len() == 54,
                out@.len() == 54 + r * stride,
                out@.take(54) == header,
                forall|i: int|
                    0 <= i < r * stride ==> out@[54 + i] == #[trigger] bmp_body_s(*self)[i],
            decreases h - r,
        {
            proof {
                assert((r + 1) * stride == r * stride + stride) by (nonlinear_arith)
                    requires
                        true,
                    {
                    };
                assert((r + 1) * stride <= h * stride) by (nonlinear_arith)
                    requires
                        r + 1 <= h,
                        stride >= 0,
                    {
                    };
            }
            let y: usize = h - 1 - r;
            let mut x: usize = 0;
            while x < w
                invariant
                    image_wf(*self),
                    w == self.width,
                    h == self.height,
                    stride == row_stride(w as int),
                    pad == stride - 3 * w,
                    r < h,
                    y == h - 1 - r,
                    x <= w,
                    h * stride <= 16384 * 49155,
                    (r + 1) * stride == r * stride + stride,
                    (r + 1) * stride <= h * stride,
                    header.len() == 54,
                    out@.len() == 54 + r * stride + 3 * x,
                    out@.take(54) == header,
                    forall|i: int|
                        0 <= i < r * stride + 3 * x ==> out@[54 + i] == #[trigger] bmp_body_s(
                            *self,
                        )[i],
                decreases w - x,
            {
                let v = self.get_pixel(x, y);
                let ghost before = out@;
                out.push(channel_byte(v.z));
                out.push(channel_byte(v.y));
                out.push(channel_byte(v.x));
                proof {
                    assert(out@.take(54) =~= header);
                    assert forall|i: int| 0 <= i < r * stride + 3 * (x + 1) implies out@[54 + i]
                        == #[trigger] bmp_body_s(*self)[i] by {
                        if i < r * stride + 3 * x {
                            assert(out@[54 + i] == before[54 + i]);
                        } else {
                            let c = i - r * stride;
                            lemma_row_index(r as int, c, stride as int);
                            assert(c / 3 == x as int) by (nonlinear_arith)
                                requires
                                    3 * x <= c < 3 * (x + 1),
                                {
                                };
                            assert(bmp_body_s(*self)[i] == out@[54 + i]);
                        }
                    }
                }
                x = x + 1;
            }
            let mut p: usize = 0;
            while p < pad
                invariant
                    image_wf(*self),
                    w == self.width,
                    h == self.height,
                    stride == row_stride(w as int),
                    pad == stride - 3 * w,
                    r < h,
                    p <= pad,
                    h * stride <= 16384 * 49155,
                    (r + 1) * stride == r * stride + stride,
                    (r + 1) * stride <= h * stride,
                    header.len() == 54,
                    out@.len() == 54 + r * stride + 3 * w + p,
                    out@.take(54) == header,
                    forall|i: int|
                        0 <= i < r * stride + 3 * w + p ==> out@[54 + i] == #[trigger] bmp_body_s(
                            *self,
                        )[i],
                decreases pad - p,
            {
                let ghost before = out@;
                out.push(0);
                proof {
                    assert(out@.take(54) =~= header);
                    assert forall|i: int| 0 <= i < r * stride + 3 * w + p + 1 implies out@[54 + i]
                        == #[trigger] bmp_body_s(*self)[i] by {
                        if i < r * stride + 3 * w + p {
                            assert(out@[54 + i] == before[54 + i]);
                        } else {
                            let c = i - r * stride;
                            lemma_row_index(r as int, c, stride as int);
                        }
                    }
                }
                p = p + 1;
            }
            r = r + 1;
        }
        proof {
            assert(out@ =~= bmp_bytes_s(*self));
        }
        out
    }
}

/// The bitmap byte layout: the file is 54 header bytes plus `height`
/// rows of a stride that is a multiple of four; the size field at
/// offset 2 equals the actual byte count; and the pixel at column `x`,
/// row `y` of the buffer appears in the row written `height - 1 - y`
/// from the start of the pixel data (bottom-to-top), as B, G, R bytes.
pub proof fn lemma_bmp_layout(img: Image)
    requires
        image_wf(img),
    ensures
        bmp_bytes_s(img).len() == bmp_size(img.width as int, img.height as int),
        row_stride(img.width as int) % 4 == 0,
        bmp_bytes_s(img).subrange(2, 6) == le32(bmp_bytes_s(img).len() as int),
        forall|x: int, y: int|
            0 <= x < img.width && 0 <= y < img.height ==> {
                let s = row_stride(img.width as int);
                let base = 54 + (img.height - 1 - y) * s + 3 * x;
                let v = #[trigger] img.data@[y * img.width + x];
                &&& bmp_bytes_s(img)[base] == byte_of(v.z as int)
                &&& bmp_bytes_s(img)[base + 1] == byte_of(v.y as int)
                &&& bmp_bytes_s(img)[base + 2] == byte_of(v.x as int)
            },
{
    let w = img.width as int;
    let h = img.height as int;
    let s = row_stride(w);
    lemma_bmp_size_bounds(w, h);
    assert(s % 4 == 0);
    assert(bmp_bytes_s(img).subrange(2, 6) =~= le32(bmp_bytes_s(img).len() as int));
    assert forall|x: int, y: int| 0 <= x < w && 0 <= y < h implies {
        let base = 54 + (h - 1 - y) * s + 3 * x;
        let v = #[trigger] img.data@[y * w + x];
        &&& bmp_bytes_s(img)[base] == byte_of(v.z as int)
        &&& bmp_bytes_s(img)[base + 1] == byte_of(v.y as int)
        &&& bmp_bytes_s(img)[base + 2] == byte_of(v.x as int)
    } by {
        let r = h - 1 - y;
        assert(0 <= r < h);
        assert(r * s + 3 * x + 2 < h * s) by (nonlinear_arith)
            requires
                0 <= r < h,
                0 <= x < w,
                s == row_stride(w),
                w >= 1,
            {
            };
        lemma_row_index(r, 3 * x, s);
        lemma_row_index(r, 3 * x + 1, s);
        lemma_row_index(r, 3 * x + 2, s);
        assert((3 * x) / 3 == x && (3 * x + 1) / 3 == x && (3 * x + 2) / 3 == x);
        assert((3 * x) % 3 == 0 && (3 * x + 1) % 3 == 1 && (3 * x + 2) % 3 == 2);
    }
}

} // verus!
