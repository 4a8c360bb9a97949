//! Turning a pre-rendered image into a frame for the panel: decode, convert
//! to grey, and threshold each pixel into the 1-bit buffer.
use vstd::prelude::*;
use crate::render::PixelBuffer;

verus! {

/// What `image` makes of an encoded image after converting it to 8-bit grey:
/// its width, its height and its grey levels in row-major order, or `None`
/// when the bytes are not an image it can decode.
pub uninterp spec fn png_luma(bytes: Seq<u8>) -> Option<(u32, u32, Seq<u8>)>;

/// Decodes `bytes` with `image::load_from_memory` (the format is guessed from
/// the bytes), converts the result to 8-bit grey with
/// `DynamicImage::into_luma8`, and hands back the width, the height and the
/// raw grey samples of that `GrayImage`.
///
/// Claimed: the result is `png_luma` of the bytes, and the sample vector
/// holds at least width × height samples (`ImageBuffer` refuses a smaller
/// container, one sample per pixel, row-major). What the decoder computes is
/// not stated.
#[verifier::external_body]
fn decode_luma(bytes: &[u8]) -> (r: Option<(u32, u32, Vec<u8>)>)
    ensures
        match r {
            Some((w, h, px)) => png_luma(bytes@) == Some((w, h, px@)) && px@.len() >= w * h,
            None => png_luma(bytes@) is None,
        },
{
    match image::load_from_memory(bytes) {
        Ok(img) => {
            let grey = img.into_luma8();
            let (w, h) = grey.dimensions();
            Some((w, h, grey.into_raw()))
        },
        Err(_) => None,
    }
}

/// Whether the image pixel (x, y) is dark: it lies on the `img_w`×`img_h`
/// image and its grey level is below 128.
pub open spec fn luma_dark(img_w: int, img_h: int, luma: Seq<u8>, x: int, y: int) -> bool {
    &&& 0 <= x < img_w
    &&& 0 <= y < img_h
    &&& luma[y * img_w + x] < 128
}

proof fn lemma_sample_index(x: int, y: int, w: int, h: int)
    requires
        0 <= x < w,
        0 <= y < h,
    ensures
        0 <= y * w + x < w * h,
{
    assert(0 <= y * w + x < w * h) by (nonlinear_arith)
        requires 0 <= x < w, 0 <= y < h;
}

/// Pack a grey image into a `width`×`height` 1-bit buffer: a buffer pixel is
/// black exactly when the image pixel at the same place is dark (grey level
/// below 128). Image pixels off the buffer are cropped; buffer pixels off the
/// image stay white.
pub fn pack_luma(width: u32, height: u32, img_w: u32, img_h: u32, luma: &Vec<u8>) -> (buf: PixelBuffer)
    requires
        width * height <= u32::MAX,
        luma@.len() >= img_w * img_h,
    ensures
        buf.wf(),
        buf.width == width,
        buf.height == height,
        forall|x: int, y: int| #[trigger] buf.in_bounds(x, y) ==> buf.black_at(x, y) == luma_dark(img_w as int, img_h as int, luma@, x, y),
{
    let mut buf = PixelBuffer::new(width, height);
    let rows: u32 = if height < img_h { height } else { img_h };
    let cols: u32 = if width < img_w { width } else { img_w };
    let n: usize = luma.len();
    let mut y: u32 = 0;
    while y < rows
        invariant
            buf.wf(),
            buf.width == width,
            buf.height == height,
            rows <= height,
            rows <= img_h,
            cols <= width,
            cols <= img_w,
            rows == height || rows == img_h,
            cols == width || cols == img_w,
            y <= rows,
            luma@.len() >= img_w * img_h,
            n == luma@.len(),
            forall|px: int, py: int| #[trigger] buf.in_bounds(px, py) ==> buf.black_at(px, py) == (py < y && luma_dark(img_w as int, img_h as int, luma@, px, py)),
        decreases rows - y,
    {
        let mut x: u32 = 0;
        while x < cols
            invariant
                buf.wf(),
                buf.width == width,
                buf.height == height,
                rows <= height,
                rows <= img_h,
                cols <= width,
                cols <= img_w,
                cols == width || cols == img_w,
                y < rows,
                x <= cols,
                luma@.len() >= img_w * img_h,
                n == luma@.len(),
                forall|px: int, py: int| #[trigger] buf.in_bounds(px, py) ==> buf.black_at(px, py) == ((py < y || (py == y && px < x)) && luma_dark(img_w as int, img_h as int, luma@, px, py)),
            decreases cols - x,
        {
            proof {
                lemma_sample_index(x as int, y as int, img_w as int, img_h as int);
            }
            let k: usize = (y as usize) * (img_w as usize) + (x as usize);
            let dark: bool = luma[k] < 128;
            let ghost before = buf;
            buf.set_pixel(x, y, dark);
            proof {
                assert(luma_dark(img_w as int, img_h as int, luma@, x as int, y as int) == dark);
                assert forall|px: int, py: int| #[trigger] buf.in_bounds(px, py) implies buf.black_at(px, py) == ((py < y || (py == y && px < x + 1)) && luma_dark(img_w as int, img_h as int, luma@, px, py)) by {
                    assert(before.in_bounds(px, py));
                }
            }
            x = x + 1;
        }
        proof {
            assert forall|px: int, py: int| #[trigger] buf.in_bounds(px, py) implies buf.black_at(px, py) == (py < y + 1 && luma_dark(img_w as int, img_h as int, luma@, px, py)) by {
                if py == y && px >= cols {
                    assert(!luma_dark(img_w as int, img_h as int, luma@, px, py));
                }
            }
        }
        y = y + 1;
    }
    proof {
        assert forall|px: int, py: int| #[trigger] buf.in_bounds(px, py) implies buf.black_at(px, py) == luma_dark(img_w as int, img_h as int, luma@, px, py) by {
            if py >= rows {
                assert(!luma_dark(img_w as int, img_h as int, luma@, px, py));
            }
        }
    }
    buf
}

/// Decode a pre-rendered image and pack it into a `width`×`height` frame.
///
/// `None` when the bytes are not an image that `image` decodes. Otherwise
/// the frame of [`pack_luma`] on the decoded grey image: pixels with grey
/// level below 128 are black, the rest white, and image pixels outside the
/// frame are cropped.
pub fn frame_from_image(bytes: &[u8], width: u32, height: u32) -> (r: Option<PixelBuffer>)
    requires
        width * height <= u32::MAX,
    ensures
        match png_luma(bytes@) {
            None => r is None,
            Some((img_w, img_h, luma)) => r matches Some(buf) && {
                &&& buf.wf()
                &&& buf.width == width
                &&& buf.height == height
                &&& forall|x: int, y: int| #[trigger] buf.in_bounds(x, y) ==> buf.black_at(x, y) == luma_dark(img_w as int, img_h as int, luma, x, y)
            },
        },
{
    match decode_luma(bytes) {
        None => None,
        Some((img_w, img_h, luma)) => Some(pack_luma(width, height, img_w, img_h, &luma)),
    }
}

} // verus!
