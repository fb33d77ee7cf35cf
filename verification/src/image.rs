//! Buffers from encoded images.

use vstd::prelude::*;
use crate::buffer::plain_mode;
use crate::buffer::Buffer;
use crate::pixel::packed;
use crate::pixel::Channel;
use crate::pixel::Pixel;

verus! {

/// A decoded image: its size and its pixels as bytes, four for each pixel
/// (red, green, blue, alpha), row by row.
pub struct Decoded {
    pub width: usize,
    pub height: usize,
    pub data: Vec<u8>,
}

/// Decodes an image file held in memory with
/// `stb_image::image::load_from_memory_with_depth`, asking for four
/// channels of eight bits. `None` stands for every outcome but an image of
/// bytes. Nothing is claimed of what the decoder hands back; the length of
/// the input has to fit the 32-bit length that the decoder is called with.
#[verifier::external_body]
fn decode_rgba(bytes: &[u8]) -> (img: Option<Decoded>)
    requires
        bytes@.len() <= i32::MAX,
{
    match stb_image::image::load_from_memory_with_depth(bytes, 4, false) {
        stb_image::image::LoadResult::ImageU8(img) => Some(
            Decoded { width: img.width, height: img.height, data: img.data },
        ),
        stb_image::image::LoadResult::ImageF32(_) => None,
        stb_image::image::LoadResult::Error(_) => None,
    }
}

/// The pixel with the number `i` of an image given as bytes.
pub open spec fn rgba_pixel(data: Seq<u8>, i: int) -> Pixel {
    packed(Channel { r: data[4 * i], g: data[4 * i + 1], b: data[4 * i + 2], a: data[4 * i + 3] })
}

/// Whether a buffer can hold an image of this size given by these bytes:
/// the size is that of a buffer and there are four bytes for every pixel.
pub open spec fn rgba_fits(width: int, height: int, len: int) -> bool {
    &&& width >= 1
    &&& height >= 1
    &&& width * height <= i32::MAX
    &&& len >= 4 * (width * height)
}

impl Buffer {
    /// A fresh buffer with the pixels of a decoded image, where there can
    /// be one. Bytes beyond the last pixel are not read.
    pub fn from_rgba8(width: usize, height: usize, data: &[u8]) -> (buf: Option<Buffer>)
        ensures
            buf is Some <==> rgba_fits(width as int, height as int, data@.len() as int),
            buf matches Some(b) ==> {
                &&& b.wf()
                &&& b.w == width
                &&& b.h == height
                &&& b.clip == b.bounds()
                &&& b.mode == plain_mode()
                &&& forall|i: int|
                    0 <= i < width * height ==> #[trigger] b.pixels@[i] == rgba_pixel(data@, i)
            },
    {
        if width < 1 || height < 1 || width > i32::MAX as usize || height > i32::MAX as usize {
            proof {
                if width >= 1 && height >= 1 {
                    assert(width * height > i32::MAX) by (nonlinear_arith)
                        requires
                            width >= 1,
                            height >= 1,
                            width > i32::MAX || height > i32::MAX,
                    ;
                }
            }
            return None;
        }
        assert(1 <= width * height <= 0x7fff_ffff * 0x7fff_ffff) by (nonlinear_arith)
            requires
                1 <= width <= 0x7fff_ffff,
                1 <= height <= 0x7fff_ffff,
        ;
        let n: u64 = width as u64 * height as u64;
        if n > i32::MAX as u64 || (data.len() as u64) < 4 * n {
            return None;
        }
        let mut buf = Buffer::new(width as i32, height as i32);
        let mut i: usize = 0;
        while i < n as usize
            invariant
                buf.wf(),
                buf.w == width,
                buf.h == height,
                buf.clip == buf.bounds(),
                buf.mode == plain_mode(),
                n == width * height,
                n == buf.pixels@.len(),
                4 * n <= data@.len(),
                data@.len() <= usize::MAX,
                i <= n,
                forall|j: int| 0 <= j < i ==> #[trigger] buf.pixels@[j] == rgba_pixel(data@, j),
            decreases n - i,
        {
            let p = Pixel::pixel(data[4 * i], data[4 * i + 1], data[4 * i + 2], data[4 * i + 3]);
            buf.pixels.set(i, p);
            i += 1;
        }
        Some(buf)
    }

    /// Decodes an image file held in memory into a fresh buffer. There is
    /// no buffer where the bytes are no image that the decoder knows, or
    /// where the image has no pixel or too many for a buffer.
    pub fn bytes(bytes: &[u8]) -> (buf: Option<Buffer>)
        ensures
            buf matches Some(b) ==> b.wf() && b.clip == b.bounds() && b.mode == plain_mode(),
            bytes@.len() > i32::MAX ==> buf is None,
            exists|img: Option<Decoded>| #[trigger] decoded_into(img, buf),
    {
        if bytes.len() > i32::MAX as usize {
            assert(decoded_into(None, None));
            return None;
        }
        Buffer::from_decoded(decode_rgba(bytes))
    }

    /// The buffer that an outcome of the decoder gives: none where nothing
    /// was decoded, and else what `from_rgba8` makes of the decoded image.
    pub fn from_decoded(img: Option<Decoded>) -> (buf: Option<Buffer>)
        ensures
            decoded_into(img, buf),
    {
        match img {
            Some(d) => Buffer::from_rgba8(d.width, d.height, d.data.as_slice()),
            None => None,
        }
    }
}

/// Whether `buf` is what an image of this size, given by these bytes,
/// becomes: a buffer exactly where one can hold the image, of the size of
/// the image, with the plain mode, a clip rectangle covering its whole
/// grid, and the pixels of the image in their order.
pub open spec fn rgba_built(width: int, height: int, data: Seq<u8>, buf: Option<Buffer>) -> bool {
    &&& buf is Some <==> rgba_fits(width, height, data.len() as int)
    &&& buf matches Some(b) ==> {
        &&& b.wf()
        &&& b.w == width
        &&& b.h == height
        &&& b.clip == b.bounds()
        &&& b.mode == plain_mode()
        &&& forall|i: int| 0 <= i < width * height ==> #[trigger] b.pixels@[i] == rgba_pixel(data, i)
    }
}

/// Whether `buf` is what the outcome `img` of the decoder becomes: no
/// buffer where nothing was decoded, and else what the decoded image
/// becomes.
pub open spec fn decoded_into(img: Option<Decoded>, buf: Option<Buffer>) -> bool {
    match img {
        Some(d) => rgba_built(d.width as int, d.height as int, d.data@, buf),
        None => buf is None,
    }
}

} // verus!
