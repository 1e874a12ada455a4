use vstd::prelude::*;
use crate::color::{pack, rgba};

verus! {

/// png's decoding error, carried through without being looked into.
#[verifier::external_type_specification]
#[verifier::external_body]
pub struct ExDecodingError(png::DecodingError);

/// The first frame of a PNG file, decoded with alpha added where the file
/// has none: its width, its height and its samples row by row; `None`
/// where the file cannot be decoded.
pub uninterp spec fn png_frame_of(data: Seq<u8>) -> Option<(u32, u32, Seq<u8>)>;

/// Relies on png's `Decoder::read_info` and `Reader::next_frame` (with
/// `Transformations::ALPHA`): the decoded first frame depends on the file's
/// bytes alone.
#[verifier::external_body]
fn decode_png(data: &Vec<u8>) -> (r: Result<(u32, u32, Vec<u8>), png::DecodingError>)
    ensures
        match r {
            Ok((w, h, samples)) => png_frame_of(data@) == Some((w, h, samples@)),
            Err(_) => png_frame_of(data@) is None,
        },
{
    let mut decoder = png::Decoder::new(data.as_slice());
    decoder.set_transformations(png::Transformations::ALPHA);
    let mut reader = decoder.read_info()?;
    let mut samples = vec![0u8; reader.output_buffer_size()];
    let info = reader.next_frame(&mut samples)?;
    samples.truncate(info.buffer_size());
    Ok((info.width, info.height, samples))
}

/// Why a texture could not be built from an image file.
#[derive(Debug, Copy, Clone, PartialEq, Eq, Structural)]
pub enum TextureError {
    /// The file is not a PNG image that can be decoded.
    Decode,
    /// The image is empty, or its samples are not 8-bit red, green, blue
    /// and alpha.
    Format,
}

/// The packed pixel of the `i`-th group of four bytes, read as red, green,
/// blue, alpha.
pub open spec fn pixel_of_bytes(bytes: Seq<u8>, i: int) -> u32 {
    pack(bytes[4 * i], bytes[4 * i + 1], bytes[4 * i + 2], bytes[4 * i + 3])
}

/// An immutable image of packed pixels, stored row by row.
pub struct Texture {
    width: usize,
    height: usize,
    pixels: Vec<u32>,
}

impl Texture {
    pub closed spec fn spec_width(&self) -> nat {
        self.width as nat
    }

    pub closed spec fn spec_height(&self) -> nat {
        self.height as nat
    }

    /// The pixels, row by row.
    pub closed spec fn view_pixels(&self) -> Seq<u32> {
        self.pixels@
    }

    #[verifier::type_invariant]
    pub open spec fn wf(&self) -> bool {
        &&& 0 < self.spec_width() <= usize::MAX
        &&& 0 < self.spec_height() <= usize::MAX
        &&& self.view_pixels().len() == self.spec_width() * self.spec_height()
    }

    /// The pixel at column `col` and row `row`.
    pub open spec fn pixel_at(&self, col: int, row: int) -> u32 {
        self.view_pixels()[row * self.spec_width() + col]
    }

    /// Builds a texture from 8-bit red, green, blue, alpha samples, four
    /// bytes per pixel, row by row. `None` where a dimension is zero or the
    /// number of bytes is not four per pixel.
    pub fn from_rgba_bytes(width: usize, height: usize, bytes: &Vec<u8>) -> (t: Option<Texture>)
        ensures
            t is Some <==> (width > 0 && height > 0 && bytes@.len() == 4 * width * height),
            t matches Some(tx) ==> {
                &&& tx.wf()
                &&& tx.spec_width() == width
                &&& tx.spec_height() == height
                &&& forall|i: int|
                    0 <= i < width * height ==> #[trigger] tx.view_pixels()[i]
                        == pixel_of_bytes(bytes@, i)
            },
    {
        if width == 0 || height == 0 {
            return None;
        }
        let len = bytes.len();
        if len % 4 != 0 {
            proof {
                assert(4 * width * height == 4 * (width * height)) by (nonlinear_arith);
            }
            return None;
        }
        let n: usize = len / 4;
        proof {
            assert((width as int) * (height as int) < 0x1_0000_0000_0000_0000_0000_0000_0000_0000)
                by (nonlinear_arith)
                requires
                    width <= usize::MAX,
                    height <= usize::MAX,
                    usize::MAX < 0x1_0000_0000_0000_0000,
            ;
            assert(4 * width * height == 4 * (width * height)) by (nonlinear_arith);
        }
        if (width as u128) * (height as u128) != n as u128 {
            return None;
        }
        let mut pixels: Vec<u32> = Vec::with_capacity(n);
        let mut i: usize = 0;
        while i < n
            invariant
                n == width * height,
                bytes@.len() == 4 * n,
                4 * n <= usize::MAX,
                i <= n,
                pixels@.len() == i,
                forall|j: int| 0 <= j < i ==> #[trigger] pixels@[j] == pixel_of_bytes(bytes@, j),
            decreases n - i,
        {
            let c = rgba::new(bytes[4 * i], bytes[4 * i + 1], bytes[4 * i + 2], bytes[4 * i + 3]);
            pixels.push(c.convert_to_u32());
            i = i + 1;
        }
        Some(Texture { width, height, pixels })
    }

    /// Builds a texture from the bytes of a PNG file: its first frame,
    /// which must decode to 8-bit red, green, blue and alpha samples.
    pub fn from_png(data: &Vec<u8>) -> (r: Result<Texture, TextureError>)
        ensures
            match png_frame_of(data@) {
                None => r == Err::<Texture, TextureError>(TextureError::Decode),
                Some((w, h, samples)) => if w > 0 && h > 0 && samples.len() == 4 * w * h {
                    r matches Ok(tx) && tx.wf() && tx.spec_width() == w && tx.spec_height() == h
                        && forall|i: int|
                        0 <= i < w * h ==> #[trigger] tx.view_pixels()[i] == pixel_of_bytes(
                            samples,
                            i,
                        )
                } else {
                    r == Err::<Texture, TextureError>(TextureError::Format)
                },
            },
    {
        match decode_png(data) {
            Err(_) => Err(TextureError::Decode),
            Ok((w, h, samples)) => match Texture::from_rgba_bytes(w as usize, h as usize, &samples) {
                Some(t) => Ok(t),
                None => Err(TextureError::Format),
            },
        }
    }

    pub fn width(&self) -> (w: usize)
        ensures
            w == self.spec_width(),
    {
        self.width
    }

    pub fn height(&self) -> (h: usize)
        ensures
            h == self.spec_height(),
    {
        self.height
    }

    /// The pixel at column `col` and row `row`.
    pub fn sample(&self, col: usize, row: usize) -> (p: u32)
        requires
            col < self.spec_width(),
            row < self.spec_height(),
        ensures
            p == self.pixel_at(col as int, row as int),
    {
        let _len = self.pixels.len();
        proof {
            use_type_invariant(self);
            crate::grid::lemma_cell_index(
                col as int,
                row as int,
                self.spec_width() as int,
                self.spec_height() as int,
            );
        }
        self.pixels[row * self.width + col]
    }
}

} // verus!
