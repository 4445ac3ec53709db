//! A minimal RGB image and a placeholder IDR decode.
//!
//! Real H.264 picture decoding is outside this crate's scope: the
//! decode produces a black frame of the size the sequence parameter
//! set declares.

use vstd::prelude::*;
use crate::sps::Sps;

verus! {

/// A packed RGB image: three bytes per pixel, rows first.
pub struct RgbImage {
    /// Pixel data in RGB order.
    pub data: Vec<u8>,
    /// Width in pixels.
    pub width: u32,
    /// Height in pixels.
    pub height: u32,
}

/// One RGB triplet.
pub struct Rgb(pub u8, pub u8, pub u8);

impl RgbImage {
    /// An image filled with a single colour.
    pub fn from_pixel(width: u32, height: u32, pixel: Rgb) -> (r: RgbImage)
        requires
            width * height * 3 <= usize::MAX,
        ensures
            r.width == width,
            r.height == height,
            r.data@.len() == width * height * 3,
            forall|k: int|
                0 <= k < width * height ==> #[trigger] r.data@[3 * k] == pixel.0 && r.data@[3 * k
                    + 1] == pixel.1 && r.data@[3 * k + 2] == pixel.2,
    {
        let count = (width as u64) * (height as u64);
        proof {
            assert((width as u64) * (height as u64) * 3 <= usize::MAX) by (nonlinear_arith)
                requires
                    width * height * 3 <= usize::MAX,
            ;
        }
        let mut data: Vec<u8> = Vec::new();
        let mut i: u64 = 0;
        while i < count
            invariant
                i <= count,
                count == (width as u64) * (height as u64),
                count * 3 <= usize::MAX,
                data@.len() == 3 * i,
                forall|k: int|
                    0 <= k < i ==> #[trigger] data@[3 * k] == pixel.0 && data@[3 * k + 1]
                        == pixel.1 && data@[3 * k + 2] == pixel.2,
            decreases count - i,
        {
            proof {
                assert((i + 1) * 3 <= count * 3) by (nonlinear_arith)
                    requires
                        i < count,
                ;
            }
            let ghost d0 = data@;
            data.push(pixel.0);
            data.push(pixel.1);
            data.push(pixel.2);
            proof {
                assert(data@.len() == d0.len() + 3);
                assert(data@[3 * (i as int)] == pixel.0);
                assert(data@[3 * (i as int) + 1] == pixel.1);
                assert(data@[3 * (i as int) + 2] == pixel.2);
                assert(forall|k: int| 0 <= k < d0.len() ==> #[trigger] data@[k] == d0[k]);
                assert forall|k: int| 0 <= k < i + 1 implies #[trigger] data@[3 * k] == pixel.0
                    && data@[3 * k + 1] == pixel.1 && data@[3 * k + 2] == pixel.2 by {
                    if k < i {
                        assert(d0[3 * k] == pixel.0 && d0[3 * k + 1] == pixel.1 && d0[3 * k + 2]
                            == pixel.2);
                        assert(3 * k + 2 < d0.len()) by (nonlinear_arith)
                            requires
                                0 <= k < i,
                                d0.len() == 3 * i,
                        ;
                    }
                }
            }
            i = i + 1;
        }
        proof {
            assert(data@.len() == width * height * 3) by (nonlinear_arith)
                requires
                    data@.len() == 3 * ((width as u64) * (height as u64)),
                    count == (width as u64) * (height as u64),
            ;
        }
        RgbImage { data, width, height }
    }
}

/// Produce a frame for an IDR slice: a black image of the size the
/// sequence parameter set declares. Actual picture decoding is out of
/// scope.
pub fn decode_idr_to_rgb(nalus: &Vec<Vec<u8>>, sps: &Sps) -> (r: RgbImage)
    requires
        sps.width * sps.height * 3 <= usize::MAX,
    ensures
        r.width == sps.width,
        r.height == sps.height,
        r.data@.len() == sps.width * sps.height * 3,
        forall|k: int| 0 <= k < r.data@.len() ==> #[trigger] r.data@[k] == 0,
{
    let _ = nalus;
    let black = Rgb(0, 0, 0);
    proof {
        assert(black.0 == 0 && black.1 == 0 && black.2 == 0);
    }
    let img = RgbImage::from_pixel(sps.width, sps.height, black);
    proof {
        assert forall|k: int| 0 <= k < img.data@.len() implies #[trigger] img.data@[k] == 0 by {
            let q = k / 3;
            vstd::arithmetic::div_mod::lemma_fundamental_div_mod(k, 3);
            assert(0 <= q < sps.width * sps.height) by (nonlinear_arith)
                requires
                    0 <= k < sps.width * sps.height * 3,
                    k == 3 * q + k % 3,
                    0 <= k % 3 < 3,
            ;
            assert(img.data@[3 * q] == 0);
            assert(img.data@[3 * q + 1] == 0);
            assert(img.data@[3 * q + 2] == 0);
            assert(k == 3 * q || k == 3 * q + 1 || k == 3 * q + 2);
        }
    }
    img
}

} // verus!
