//! The binary portable-pixmap encoder and parser.
//!
//! File layout: the ASCII header `P6 <width> <height> 255\n`, then
//! `width * height` pixels, row-major top to bottom, three bytes
//! R, G, B each.

use vstd::prelude::*;
use crate::image::{Image, image_wf, quant_bytes, dequant_data, byte_of, channel_byte, lemma_quant_of_dequant};
use crate::vec3::Vec3;

verus! {

/// The decimal digits of a nonnegative number, most significant first.
pub open spec fn dec_rep(n: int) -> Seq<u8>
    recommends
        n >= 0,
    decreases n,
{
    if n < 10 {
        seq![(48 + n) as u8]
    } else {
        dec_rep(n / 10).push((48 + n % 10) as u8)
    }
}

/// The header bytes: `P6 `, the width, a space, the height, ` 255\n`.
pub open spec fn header_s(w: int, h: int) -> Seq<u8> {
    seq![80u8, 54u8, 32u8] + dec_rep(w) + seq![32u8] + dec_rep(h) + seq![
        32u8,
        50u8,
        53u8,
        53u8,
        10u8,
    ]
}

/// The whole file: header, then the quantized pixel bytes.
pub open spec fn ppm_bytes_s(img: Image) -> Seq<u8> {
    header_s(img.width as int, img.height as int) + quant_bytes(img.data@)
}

/// Whether `bytes` is a portable pixmap of dimensions `w` x `h`: the
/// canonical header followed by exactly `3 * w * h` pixel bytes.
pub open spec fn canonical_ppm(bytes: Seq<u8>, w: int, h: int) -> bool {
    &&& bytes.len() == header_s(w, h).len() + 3 * (w * h)
    &&& bytes.take(header_s(w, h).len() as int) == header_s(w, h)
}

/// An ASCII decimal digit.
pub open spec fn is_digit(b: u8) -> bool {
    48 <= b <= 57
}

/// The value of a sequence of ASCII digits, most significant first.
pub open spec fn val_of(d: Seq<u8>) -> int
    decreases d.len(),
{
    if d.len() == 0 {
        0
    } else {
        10 * val_of(d.drop_last()) + (d.last() - 48)
    }
}

/// The decimal digits of `n` are ASCII digits whose value is `n`, and
/// every prefix has a value no larger than `n`.
proof fn lemma_dec_rep_props(n: int)
    requires
        n >= 0,
    ensures
        dec_rep(n).len() >= 1,
        forall|k: int| 0 <= k < dec_rep(n).len() ==> is_digit(#[trigger] dec_rep(n)[k]),
        val_of(dec_rep(n)) == n,
        forall|j: int|
            0 <= j <= dec_rep(n).len() ==> 0 <= val_of(#[trigger] dec_rep(n).take(j)) <= n,
    decreases n,
{
    if n < 10 {
        let full = dec_rep(n);
        assert(full == seq![(48 + n) as u8]);
        assert(full.len() == 1);
        assert(full.drop_last() =~= Seq::<u8>::empty());
        assert(val_of(full.drop_last()) == 0);
        assert(full.last() == (48 + n) as u8);
        assert(val_of(full) == 10 * val_of(full.drop_last()) + (full.last() - 48));
        assert(val_of(full) == n);
        assert forall|j: int| 0 <= j <= full.len() implies 0 <= val_of(#[trigger] full.take(j))
            <= n by {
            if j == 0 {
                assert(full.take(0) =~= Seq::<u8>::empty());
            } else {
                assert(full.take(j) =~= full);
            }
        }
    } else {
        lemma_dec_rep_props(n / 10);
        let s = dec_rep(n / 10);
        let full = dec_rep(n);
        assert(full == s.push((48 + n % 10) as u8));
        assert(full.drop_last() =~= s);
        assert(val_of(full) == 10 * val_of(s) + n % 10);
        assert forall|k: int| 0 <= k < full.len() implies is_digit(#[trigger] full[k]) by {
            if k < s.len() {
                assert(full[k] == s[k]);
            } else {
                assert(full[k] == (48 + n % 10) as u8);
            }
        }
        assert forall|j: int| 0 <= j <= full.len() implies 0 <= val_of(#[trigger] full.take(j))
            <= n by {
            if j <= s.len() {
                assert(full.take(j) =~= s.take(j));
                assert(0 <= val_of(s.take(j)) <= n / 10);
            } else {
                assert(full.take(j) =~= full);
            }
        }
    }
}

/// What `scan_dec` establishes: a returned pair is the value of the
/// maximal digit run at `i` and the position after it; a refusal means
/// no digit stands at `i`, or the run's value exceeds the supported
/// raster size.
pub open spec fn scan_post(bytes: Seq<u8>, i: int, res: Option<(usize, usize)>) -> bool {
    match res {
        Some(p) => {
            &&& i < p.1 <= bytes.len()
            &&& forall|k: int| i <= k < p.1 ==> is_digit(#[trigger] bytes[k])
            &&& p.1 == bytes.len() || !is_digit(bytes[p.1 as int])
            &&& p.0 == val_of(bytes.subrange(i, p.1 as int))
            &&& p.0 <= 16384
        },
        None => {
            ||| i >= bytes.len()
            ||| !is_digit(bytes[i])
            ||| exists|j: int|
                {
                    &&& i < j <= bytes.len()
                    &&& (forall|k: int| i <= k < j ==> is_digit(#[trigger] bytes[k]))
                    &&& val_of(#[trigger] bytes.subrange(i, j)) > 16384
                }
        },
    }
}

/// When the bytes at `start` hold the decimal digits of `n` followed
/// by a non-digit, the scanner must return exactly `n` and stop right
/// after the run.
proof fn lemma_scan_at_run(bytes: Seq<u8>, start: int, n: int, res: Option<(usize, usize)>)
    requires
        0 <= n <= 16384,
        0 <= start,
        start + dec_rep(n).len() < bytes.len(),
        forall|k: int|
            start <= k < start + dec_rep(n).len() ==> #[trigger] bytes[k] == dec_rep(n)[k
                - start],
        !is_digit(bytes[start + dec_rep(n).len() as int]),
        scan_post(bytes, start, res),
    ensures
        res matches Some(p) && p.0 == n && p.1 == start + dec_rep(n).len(),
{
    lemma_dec_rep_props(n);
    let l = dec_rep(n).len() as int;
    assert(bytes[start] == dec_rep(n)[0]);
    match res {
        None => {
            if start >= bytes.len() {
            } else if !is_digit(bytes[start]) {
            } else {
                let j = choose|j: int|
                    {
                        &&& start < j <= bytes.len()
                        &&& (forall|k: int| start <= k < j ==> is_digit(#[trigger] bytes[k]))
                        &&& val_of(#[trigger] bytes.subrange(start, j)) > 16384
                    };
                assert(j <= start + l) by {
                    if j > start + l {
                        assert(is_digit(bytes[start + l]));
                    }
                };
                assert(bytes.subrange(start, j) =~= dec_rep(n).take(j - start));
                assert(0 <= val_of(dec_rep(n).take(j - start)) <= n);
            }
        },
        Some(p) => {
            assert(p.1 <= start + l) by {
                if p.1 > start + l {
                    assert(is_digit(bytes[start + l]));
                }
            };
            assert(p.1 >= start + l) by {
                if p.1 < start + l {
                    assert(bytes[p.1 as int] == dec_rep(n)[p.1 - start]);
                    assert(is_digit(bytes[p.1 as int]));
                }
            };
            assert(bytes.subrange(start, p.1 as int) =~= dec_rep(n));
        },
    }
}

/// What a canonical pixmap fixes about its header bytes: the digit
/// runs of the two dimensions, each followed by a space.
proof fn lemma_canonical_runs(bytes: Seq<u8>, w: int, h: int)
    requires
        1 <= w <= 16384,
        1 <= h <= 16384,
        canonical_ppm(bytes, w, h),
    ensures
        header_s(w, h).len() == 9 + dec_rep(w).len() + dec_rep(h).len(),
        3 + dec_rep(w).len() < bytes.len(),
        forall|k: int|
            3 <= k < 3 + dec_rep(w).len() ==> #[trigger] bytes[k] == dec_rep(w)[k - 3],
        !is_digit(bytes[3 + dec_rep(w).len() as int]),
        4 + dec_rep(w).len() + dec_rep(h).len() < bytes.len(),
        forall|k: int|
            4 + dec_rep(w).len() <= k < 4 + dec_rep(w).len() + dec_rep(h).len()
                ==> #[trigger] bytes[k] == dec_rep(h)[k - 4 - dec_rep(w).len()],
        !is_digit(bytes[4 + dec_rep(w).len() as int + dec_rep(h).len() as int]),
{
    let hd = header_s(w, h);
    let l1 = dec_rep(w).len() as int;
    let l2 = dec_rep(h).len() as int;
    lemma_dec_rep_props(w);
    lemma_dec_rep_props(h);
    assert(hd.len() == 9 + l1 + l2);
    assert(w * h >= 1) by (nonlinear_arith)
        requires
            w >= 1,
            h >= 1,
        {
        };
    assert(bytes.len() >= hd.len() + 3);
    assert forall|k: int| 0 <= k < hd.len() implies #[trigger] bytes[k] == hd[k] by {
        assert(bytes.take(hd.len() as int)[k] == bytes[k]);
    }
    assert(hd[3 + l1] == 32u8);
    assert(hd[4 + l1 + l2] == 32u8);
    assert forall|k: int| 3 <= k < 3 + l1 implies #[trigger] bytes[k] == dec_rep(w)[k - 3] by {
        assert(hd[k] == dec_rep(w)[k - 3]);
    }
    assert forall|k: int| 4 + l1 <= k < 4 + l1 + l2 implies #[trigger] bytes[k] == dec_rep(
        h,
    )[k - 4 - l1] by {
        assert(hd[k] == dec_rep(h)[k - 4 - l1]);
    }
}

/// Append the decimal digits of `n`.
fn push_dec(out: &mut Vec<u8>, n: usize)
    ensures
        final(out)@ == old(out)@ + dec_rep(n as int),
    decreases n,
{
    if n < 10 {
        out.push(48 + n as u8);
    } else {
        push_dec(out, n / 10);
        out.push(48 + (n % 10) as u8);
        proof {
            assert(out@ =~= old(out)@ + dec_rep(n as int));
        }
    }
}

impl Image {
    /// Encode the buffer as a binary portable pixmap.
    pub fn to_ppm(&self) -> (out: Vec<u8>)
        requires
            image_wf(*self),
        ensures
            out@ == ppm_bytes_s(*self),
            canonical_ppm(out@, self.width as int, self.height as int),
    {
        let mut out: Vec<u8> = Vec::new();
        out.push(80);
        out.push(54);
        out.push(32);
        push_dec(&mut out, self.width);
        out.push(32);
        push_dec(&mut out, self.height);
        out.push(32);
        out.push(50);
        out.push(53);
        out.push(53);
        out.push(10);
        proof {
            assert(out@ =~= header_s(self.width as int, self.height as int));
        }
        let ghost header = out@;
        let mut k: usize = 0;
        while k < self.data.len()
            invariant
                k <= self.data@.len(),
                out@.len() == header.len() + 3 * k,
                out@.take(header.len() as int) == header,
                forall|i: int|
                    0 <= i < 3 * k ==> out@[header.len() + i] == #[trigger] quant_bytes(
                        self.data@,
                    )[i],
            decreases self.data@.len() - k,
        {
            let v = self.data[k];
            let ghost before = out@;
            out.push(channel_byte(v.x));
            out.push(channel_byte(v.y));
            out.push(channel_byte(v.z));
            proof {
                assert(out@.take(header.len() as int) =~= header);
                assert forall|i: int| 0 <= i < 3 * (k + 1) implies out@[header.len() + i]
                    == #[trigger] quant_bytes(self.data@)[i] by {
                    if i < 3 * k {
                        assert(out@[header.len() + i] == before[header.len() + i]);
                    } else {
                        assert(i / 3 == k as int && i % 3 == i - 3 * k);
                    }
                }
            }
            k = k + 1;
        }
        proof {
            assert(out@ =~= ppm_bytes_s(*self));
        }
        out
    }

    /// Parse a binary portable pixmap. A returned buffer is exact (the
    /// input is the canonical pixmap of the returned dimensions and
    /// the data holds the dequantized pixel bytes), and the parser is
    /// complete: a canonical pixmap of supported dimensions is always
    /// accepted, with those dimensions.
    pub fn from_ppm(bytes: &Vec<u8>) -> (res: Option<Image>)
        ensures
            match res {
                Some(img) => {
                    &&& image_wf(img)
                    &&& canonical_ppm(bytes@, img.width as int, img.height as int)
                    &&& img.data@ == dequant_data(
                        bytes@.skip(header_s(img.width as int, img.height as int).len() as int),
                    )
                },
                None => true,
            },
            forall|ww: int, hh: int|
                1 <= ww <= 16384 && 1 <= hh <= 16384 && #[trigger] canonical_ppm(bytes@, ww, hh)
                    ==> match res {
                    Some(img) => img.width == ww && img.height == hh,
                    None => false,
                },
    {
        let r1 = scan_dec(bytes, 3);
        let (w, i1) = match r1 {
            Some(p) => p,
            None => {
                proof {
                    assert forall|ww: int, hh: int|
                        1 <= ww <= 16384 && 1 <= hh <= 16384 && #[trigger] canonical_ppm(
                            bytes@,
                            ww,
                            hh,
                        ) implies false by {
                        lemma_canonical_runs(bytes@, ww, hh);
                        lemma_scan_at_run(bytes@, 3, ww, r1);
                    }
                }
                return None;
            },
        };
        if i1 >= bytes.len() {
            proof {
                assert forall|ww: int, hh: int|
                    1 <= ww <= 16384 && 1 <= hh <= 16384 && #[trigger] canonical_ppm(
                        bytes@,
                        ww,
                        hh,
                    ) implies false by {
                    lemma_canonical_runs(bytes@, ww, hh);
                    lemma_scan_at_run(bytes@, 3, ww, r1);
                }
            }
            return None;
        }
        let r2 = scan_dec(bytes, i1 + 1);
        let (h, _i2) = match r2 {
            Some(p) => p,
            None => {
                proof {
                    assert forall|ww: int, hh: int|
                        1 <= ww <= 16384 && 1 <= hh <= 16384 && #[trigger] canonical_ppm(
                            bytes@,
                            ww,
                            hh,
                        ) implies false by {
                        lemma_canonical_runs(bytes@, ww, hh);
                        lemma_scan_at_run(bytes@, 3, ww, r1);
                        lemma_scan_at_run(bytes@, 4 + dec_rep(ww).len() as int, hh, r2);
                    }
                }
                return None;
            },
        };
        proof {
            assert forall|ww: int, hh: int|
                1 <= ww <= 16384 && 1 <= hh <= 16384 && #[trigger] canonical_ppm(
                    bytes@,
                    ww,
                    hh,
                ) implies w == ww && h == hh by {
                lemma_canonical_runs(bytes@, ww, hh);
                lemma_scan_at_run(bytes@, 3, ww, r1);
                lemma_scan_at_run(bytes@, 4 + dec_rep(ww).len() as int, hh, r2);
            }
        }
        if w < 1 || h < 1 {
            return None;
        }
        // Certify the guessed dimensions by re-encoding the header and
        // comparing it with the input prefix.
        let mut head: Vec<u8> = Vec::new();
        head.push(80);
        head.push(54);
        head.push(32);
        push_dec(&mut head, w);
        head.push(32);
        push_dec(&mut head, h);
        head.push(32);
        head.push(50);
        head.push(53);
        head.push(53);
        head.push(10);
        proof {
            assert(head@ =~= header_s(w as int, h as int));
        }
        let hl: usize = head.len();
        proof {
            assert(3 * (w as int * h as int) <= 0x3000_0000) by (nonlinear_arith)
                requires
                    1 <= w <= 16384,
                    1 <= h <= 16384,
                {
                };
        }
        let wh: usize = w * h;
        let npx: usize = 3 * wh;
        if bytes.len() < hl || bytes.len() - hl != npx {
            proof {
                assert forall|ww: int, hh: int|
                    1 <= ww <= 16384 && 1 <= hh <= 16384 && #[trigger] canonical_ppm(
                        bytes@,
                        ww,
                        hh,
                    ) implies false by {
                    assert(w == ww && h == hh);
                    assert(head@ == header_s(ww, hh));
                    assert(bytes@.len() == hl + 3 * (ww * hh));
                }
            }
            return None;
        }
        let mut j: usize = 0;
        while j < hl
            invariant
                j <= hl,
                hl == head@.len(),
                head@ == header_s(w as int, h as int),
                bytes@.len() == hl + 3 * (w as int * h as int),
                forall|i: int| 0 <= i < j ==> bytes@[i] == head@[i],
                forall|ww: int, hh: int|
                    1 <= ww <= 16384 && 1 <= hh <= 16384 && #[trigger] canonical_ppm(
                        bytes@,
                        ww,
                        hh,
                    ) ==> w == ww && h == hh,
            decreases hl - j,
        {
            if bytes[j] != head[j] {
                proof {
                    assert forall|ww: int, hh: int|
                        1 <= ww <= 16384 && 1 <= hh <= 16384 && #[trigger] canonical_ppm(
                            bytes@,
                            ww,
                            hh,
                        ) implies false by {
                        assert(w == ww && h == hh);
                        assert(head@ == header_s(ww, hh));
                        assert(bytes@.take(hl as int)[j as int] == bytes@[j as int]);
                    }
                }
                return None;
            }
            j = j + 1;
        }
        proof {
            assert(bytes@.take(hl as int) =~= head@);
        }
        let mut data: Vec<Vec3> = Vec::new();
        let mut k: usize = 0;
        let ghost px = bytes@.skip(hl as int);
        while k < wh
            invariant
                k <= wh,
                wh == w as int * h as int,
                forall|ww: int, hh: int|
                    1 <= ww <= 16384 && 1 <= hh <= 16384 && #[trigger] canonical_ppm(
                        bytes@,
                        ww,
                        hh,
                    ) ==> w == ww && h == hh,
                hl == header_s(w as int, h as int).len(),
                bytes@.len() == hl + 3 * (wh as int),
                bytes@.len() <= usize::MAX,
                px == bytes@.skip(hl as int),
                data@.len() == k,
                forall|m: int| 0 <= m < k ==> #[trigger] data@[m] == dequant_data(px)[m],
            decreases wh - k,
        {
            let b0: u8 = bytes[hl + 3 * k];
            let b1: u8 = bytes[hl + 3 * k + 1];
            let b2: u8 = bytes[hl + 3 * k + 2];
            data.push(
                Vec3 { x: 257 * (b0 as i64), y: 257 * (b1 as i64), z: 257 * (b2 as i64) },
            );
            proof {
                assert((3 * k as int) / 3 == k as int);
                assert(px[3 * k as int] == bytes@[hl + 3 * k as int]);
                assert(px[3 * k as int + 1] == bytes@[hl + 3 * k as int + 1]);
                assert(px[3 * k as int + 2] == bytes@[hl + 3 * k as int + 2]);
            }
            k = k + 1;
        }
        let img = Image { width: w, height: h, data };
        proof {
            assert(img.data@ =~= dequant_data(px));
        }
        Some(img)
    }
}

/// Scan an unsigned decimal number at position `i`; returns the value
/// and the position of the first non-digit byte after it. Refuses a
/// missing digit and values beyond the supported raster size.
fn scan_dec(bytes: &Vec<u8>, i: usize) -> (res: Option<(usize, usize)>)
    ensures
        scan_post(bytes@, i as int, res),
{
    let n = bytes.len();
    if i >= n || !(48 <= bytes[i] && bytes[i] <= 57) {
        return None;
    }
    let mut v: usize = 0;
    let mut j: usize = i;
    proof {
        assert(bytes@.subrange(i as int, i as int) =~= Seq::<u8>::empty());
    }
    while j < n && 48 <= bytes[j] && bytes[j] <= 57
        invariant
            i <= j <= n,
            i < n,
            n == bytes@.len(),
            v <= 16384,
            is_digit(bytes@[i as int]),
            forall|k: int| i <= k < j ==> is_digit(#[trigger] bytes@[k]),
            v == val_of(bytes@.subrange(i as int, j as int)),
        decreases n - j,
    {
        let d: usize = (bytes[j] - 48) as usize;
        let v2: usize = 10 * v + d;
        proof {
            assert(bytes@.subrange(i as int, j + 1 as int).drop_last() =~= bytes@.subrange(
                i as int,
                j as int,
            ));
            assert(bytes@.subrange(i as int, j + 1 as int).last() == bytes@[j as int]);
        }
        if v2 > 16384 {
            proof {
                assert(val_of(bytes@.subrange(i as int, j + 1 as int)) > 16384);
                assert(forall|k: int| i <= k < j + 1 ==> is_digit(#[trigger] bytes@[k]));
            }
            return None;
        }
        v = v2;
        j = j + 1;
    }
    Some((v, j))
}

/// The portable-pixmap round trip: the encoding of a buffer is the
/// canonical pixmap of its dimensions; dequantizing its pixel bytes and
/// quantizing again reproduces them exactly; and each dequantized
/// channel is within one quantization step (1/255 of the unit range)
/// of the clamped input channel.
pub proof fn lemma_ppm_round_trip(img: Image)
    requires
        image_wf(img),
    ensures
        canonical_ppm(ppm_bytes_s(img), img.width as int, img.height as int),
        quant_bytes(dequant_data(quant_bytes(img.data@))) == quant_bytes(img.data@),
        dequant_data(quant_bytes(img.data@)).len() == img.data@.len(),
        forall|k: int|
            0 <= k < img.data@.len() ==> close_channels(
                #[trigger] dequant_data(quant_bytes(img.data@))[k],
                img.data@[k],
            ),
{
    let px = quant_bytes(img.data@);
    let back = dequant_data(px);
    assert(ppm_bytes_s(img).take(header_s(img.width as int, img.height as int).len() as int)
        =~= header_s(img.width as int, img.height as int));
    assert(back.len() == img.data@.len());
    assert forall|k: int| 0 <= k < img.data@.len() implies close_channels(
        #[trigger] dequant_data(quant_bytes(img.data@))[k],
        img.data@[k],
    ) by {
        assert((3 * k) / 3 == k && (3 * k + 1) / 3 == k && (3 * k + 2) / 3 == k);
        crate::image::lemma_dequant_error(img.data@[k].x as int);
        crate::image::lemma_dequant_error(img.data@[k].y as int);
        crate::image::lemma_dequant_error(img.data@[k].z as int);
        assert(back[k].x == 257 * byte_of(img.data@[k].x as int));
        assert(back[k].y == 257 * byte_of(img.data@[k].y as int));
        assert(back[k].z == 257 * byte_of(img.data@[k].z as int));
    }
    assert forall|i: int| 0 <= i < 3 * back.len() implies #[trigger] quant_bytes(back)[i]
        == px[i] by {
        let k = i / 3;
        assert(0 <= k < back.len());
        assert((3 * k) / 3 == k && (3 * k + 1) / 3 == k && (3 * k + 2) / 3 == k);
        crate::image::lemma_dequant_error(img.data@[k].x as int);
        crate::image::lemma_dequant_error(img.data@[k].y as int);
        crate::image::lemma_dequant_error(img.data@[k].z as int);
        lemma_quant_of_dequant(byte_of(img.data@[k].x as int));
        lemma_quant_of_dequant(byte_of(img.data@[k].y as int));
        lemma_quant_of_dequant(byte_of(img.data@[k].z as int));
        assert(back[k].x == 257 * byte_of(img.data@[k].x as int));
        assert(back[k].y == 257 * byte_of(img.data@[k].y as int));
        assert(back[k].z == 257 * byte_of(img.data@[k].z as int));
    }
    assert(quant_bytes(back) =~= px);
}

/// Each channel of `a` is within one quantization step (1/255 of the
/// unit range) of the corresponding clamped channel of `b`.
pub open spec fn close_channels(a: Vec3, b: Vec3) -> bool {
    &&& -257 < a.x - crate::num::clamp_fx_s(b.x as int) < 257
    &&& -257 < a.y - crate::num::clamp_fx_s(b.y as int) < 257
    &&& -257 < a.z - crate::num::clamp_fx_s(b.z as int) < 257
}

/// The channel of a pixel selected by index 0, 1, 2 (R, G, B).
pub open spec fn channel(v: Vec3, c: int) -> int {
    if c == 0 {
        v.x as int
    } else if c == 1 {
        v.y as int
    } else {
        v.z as int
    }
}

} // verus!
