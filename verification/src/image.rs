//! The pixel source: a capability interface over a decoded raster image, and
//! its implementation backed by a bit-packed monochrome buffer decoded from a
//! PNG stream.
use vstd::arithmetic::div_mod::{lemma_div_is_ordered, lemma_div_multiples_vanish,
    lemma_fundamental_div_mod, lemma_fundamental_div_mod_converse, lemma_mod_bound};
use vstd::arithmetic::mul::{lemma_mul_inequality, lemma_mul_is_commutative,
    lemma_mul_is_distributive_add_other_way};
use vstd::prelude::*;

verus! {

/// A decoded raster image, addressed pixel by pixel. Out-of-bounds queries
/// answer `false` rather than failing; every implementation owes a proof of
/// that law.
pub trait InputImage {
    spec fn spec_width(&self) -> u32;

    spec fn spec_height(&self) -> u32;

    /// Whether the pixel at `(x, y)` is set (dark on light).
    spec fn spec_pixel(&self, x: int, y: int) -> bool;

    /// A query outside `[0, width) x [0, height)` never reports a set pixel.
    proof fn lemma_pixel_out_of_bounds(&self, x: int, y: int)
        requires
            !(0 <= x < self.spec_width() as int) || !(0 <= y < self.spec_height() as int),
        ensures
            !self.spec_pixel(x, y),
    ;

    fn width(&self) -> (r: u32)
        ensures
            r == self.spec_width(),
    ;

    fn height(&self) -> (r: u32)
        ensures
            r == self.spec_height(),
    ;

    fn is_pixel_set(&self, x: u32, y: u32) -> (r: bool)
        ensures
            r == self.spec_pixel(x as int, y as int),
    ;
}

/// The number of bytes holding one image row of `w` pixels, one bit per
/// pixel: rows are padded up to a whole byte.
pub open spec fn spec_width_offset(w: int) -> int {
    if w % 8 == 0 {
        w / 8
    } else {
        w / 8 + 1
    }
}

/// A monochrome image decoded from a PNG stream. `image_data` packs the
/// pixels row by row, one bit per pixel, least-significant bit first within
/// each byte, each row padded up to a whole byte.
pub struct InputPNGImage {
    pub width: u32,
    pub height: u32,
    pub image_data: Vec<u8>,
}

impl InputImage for InputPNGImage {
    open spec fn spec_width(&self) -> u32 {
        self.width
    }

    open spec fn spec_height(&self) -> u32 {
        self.height
    }

    /// A pixel is set when its coordinate is in bounds, its bit lies within
    /// the packed buffer, and that bit is one.
    open spec fn spec_pixel(&self, x: int, y: int) -> bool {
        &&& 0 <= x < self.width as int
        &&& 0 <= y < self.height as int
        &&& {
            let offset = y * spec_width_offset(self.width as int) + x / 8;
            &&& offset < self.image_data@.len()
            &&& (self.image_data@[offset] >> ((x % 8) as u8)) & 1 == 1
        }
    }

    proof fn lemma_pixel_out_of_bounds(&self, x: int, y: int) {
    }

    fn width(&self) -> (r: u32) {
        self.width
    }

    fn height(&self) -> (r: u32) {
        self.height
    }

    fn is_pixel_set(&self, x: u32, y: u32) -> (r: bool) {
        if x >= self.width || y >= self.height {
            return false;
        }
        let width_offset: u32 = if self.width % 8 == 0 {
            self.width / 8
        } else {
            self.width / 8 + 1
        };
        proof {
            assert(y as int * width_offset as int <= 0xFFFF_FFFF * 0x2000_0000)
                by (nonlinear_arith)
                requires
                    y as int <= 0xFFFF_FFFF && width_offset as int <= 0x2000_0000,
            ;
        }
        let offset: u64 = (y as u64) * (width_offset as u64) + ((x / 8) as u64);
        proof {
            assert(offset == y as int * spec_width_offset(self.width as int) + x as int / 8);
        }
        if offset >= self.image_data.len() as u64 {
            return false;
        }
        let b: u8 = self.image_data[offset as usize];
        let sh: u8 = (x % 8) as u8;
        (b >> sh) & 1 == 1
    }
}

/// A sample value below this is dark enough to count as set.
pub const IS_SET_THRESHOLD: u8 = 0x32;

/// One decoded pixel: either a grayscale sample with its alpha, or a color
/// sample with its alpha.
#[derive(Clone, Copy, Debug, PartialEq, Eq, Structural)]
pub enum Pixel {
    RGBA(u8, u8, u8, u8),
    Grayscale(u8, u8),
}

impl Pixel {
    /// A pixel is set exactly when it is fully opaque and at least one of
    /// its samples is darker than the threshold.
    pub open spec fn spec_is_set(self) -> bool {
        match self {
            Pixel::Grayscale(gray, alpha) => alpha == 0xFF && gray < IS_SET_THRESHOLD,
            Pixel::RGBA(r, g, b, alpha) => alpha == 0xFF && (r < IS_SET_THRESHOLD || g
                < IS_SET_THRESHOLD || b < IS_SET_THRESHOLD),
        }
    }

    /// The pixel read from one chunk of samples: 1 byte is opaque grayscale,
    /// 2 are grayscale with alpha, 3 are opaque color, 4 are color with
    /// alpha; any other size is no pixel.
    pub open spec fn spec_from_chunk(chunk: Seq<u8>) -> Option<Pixel> {
        if chunk.len() == 1 {
            Some(Pixel::Grayscale(chunk[0], 0xFF))
        } else if chunk.len() == 2 {
            Some(Pixel::Grayscale(chunk[0], chunk[1]))
        } else if chunk.len() == 3 {
            Some(Pixel::RGBA(chunk[0], chunk[1], chunk[2], 0xFF))
        } else if chunk.len() == 4 {
            Some(Pixel::RGBA(chunk[0], chunk[1], chunk[2], chunk[3]))
        } else {
            None
        }
    }

    pub fn from_vec(values: &[u8]) -> (r: Option<Pixel>)
        ensures
            r == Pixel::spec_from_chunk(values@),
    {
        match values.len() {
            1 => Some(Pixel::Grayscale(values[0], 0xFF)),
            2 => Some(Pixel::Grayscale(values[0], values[1])),
            3 => Some(Pixel::RGBA(values[0], values[1], values[2], 0xFF)),
            4 => Some(Pixel::RGBA(values[0], values[1], values[2], values[3])),
            _ => None,
        }
    }

    pub fn is_set(&self) -> (r: bool)
        ensures
            r == self.spec_is_set(),
    {
        match self {
            Pixel::Grayscale(gray, alpha) => *alpha == 0xFF && *gray < IS_SET_THRESHOLD,
            Pixel::RGBA(r, g, b, alpha) => *alpha == 0xFF && (*r < IS_SET_THRESHOLD || *g
                < IS_SET_THRESHOLD || *b < IS_SET_THRESHOLD),
        }
    }
}

/// The sample layout of a decoded image row, as the library models it.
#[derive(Clone, Copy, Debug, PartialEq, Eq, Structural)]
pub enum ColorKind {
    Grayscale,
    GrayscaleAlpha,
    Rgb,
    Rgba,
    Indexed,
}

/// Samples per pixel under `color`; zero marks a layout the packer does not
/// support.
pub open spec fn spec_step(color: ColorKind) -> int {
    match color {
        ColorKind::Grayscale => 1,
        ColorKind::GrayscaleAlpha => 2,
        ColorKind::Rgb => 3,
        ColorKind::Rgba => 4,
        ColorKind::Indexed => 0,
    }
}

/// Walks one decoded row of samples pixel by pixel, one pixel per `step`
/// samples; a trailing chunk of fewer than `step` samples yields no pixel.
#[derive(Debug)]
pub struct ImageRowIterator<'a> {
    row: &'a [u8],
    step: usize,
    index: usize,
}

impl<'a> ImageRowIterator<'a> {
    pub closed spec fn wf(self) -> bool {
        &&& 1 <= self.step <= 4
        &&& self.index <= self.row@.len()
    }

    pub closed spec fn spec_row(self) -> Seq<u8> {
        self.row@
    }

    pub closed spec fn spec_sample_step(self) -> int {
        self.step as int
    }

    pub closed spec fn spec_index(self) -> int {
        self.index as int
    }

    pub fn new(row: &'a [u8], color_type: ColorKind) -> (r: Option<ImageRowIterator<'a>>)
        ensures
            match r {
                Some(it) => {
                    &&& spec_step(color_type) > 0
                    &&& it.wf()
                    &&& it.spec_row() == row@
                    &&& it.spec_sample_step() == spec_step(color_type)
                    &&& it.spec_index() == 0
                },
                None => spec_step(color_type) == 0,
            },
    {
        let step: usize = match color_type {
            ColorKind::Grayscale => 1,
            ColorKind::GrayscaleAlpha => 2,
            ColorKind::Rgb => 3,
            ColorKind::Rgba => 4,
            ColorKind::Indexed => 0,
        };
        if step == 0 {
            return None;
        }
        Some(ImageRowIterator { row, step, index: 0 })
    }

    /// Yields the next whole pixel, advancing by one chunk of samples; `None`
    /// once fewer than `step` samples remain.
    pub fn next(&mut self) -> (r: Option<Pixel>)
        requires
            old(self).wf(),
        ensures
            final(self).wf(),
            final(self).spec_row() == old(self).spec_row(),
            final(self).spec_sample_step() == old(self).spec_sample_step(),
            match r {
                Some(p) => {
                    &&& old(self).spec_index() + old(self).spec_sample_step() <= old(
                        self,
                    ).spec_row().len()
                    &&& Some(p) == Pixel::spec_from_chunk(
                        old(self).spec_row().subrange(
                            old(self).spec_index(),
                            old(self).spec_index() + old(self).spec_sample_step(),
                        ),
                    )
                    &&& final(self).spec_index() == old(self).spec_index() + old(
                        self,
                    ).spec_sample_step()
                },
                None => {
                    &&& old(self).spec_index() + old(self).spec_sample_step() > old(
                        self,
                    ).spec_row().len()
                    &&& final(self).spec_index() == old(self).spec_row().len()
                },
            },
    {
        if self.row.len() - self.index < self.step {
            self.index = self.row.len();
            return None;
        }
        let end = self.index + self.step;
        let values = &self.row[self.index..end];
        self.index = end;
        Pixel::from_vec(values)
    }
}

/// The pixels decoded from one row of samples: chunk `i` of `step` samples
/// becomes pixel `i`; a trailing partial chunk is dropped.
pub open spec fn spec_row_pixels(row: Seq<u8>, step: int) -> Seq<Pixel>
    recommends
        1 <= step,
{
    Seq::new(
        (row.len() as int / step) as nat,
        |i: int| Pixel::spec_from_chunk(row.subrange(i * step, (i + 1) * step)).unwrap(),
    )
}

/// The first `k` pixels starting at `base`, packed into one byte least
/// significant bit first: bit `j` holds pixel `base + j`; positions past the
/// end of the row stay clear.
pub open spec fn spec_lsb_bits(pixels: Seq<Pixel>, base: int, k: int) -> u8
    decreases k,
{
    if k <= 0 {
        0u8
    } else {
        spec_lsb_bits(pixels, base, k - 1) | (if base + (k - 1) < pixels.len() && pixels[base + (k
            - 1)].spec_is_set() {
            1u8 << ((k - 1) as u8)
        } else {
            0u8
        })
    }
}

/// One row of pixels packed into bytes, one bit per pixel, least significant
/// bit first, the final byte padded with clear bits.
pub open spec fn spec_pack_pixels(pixels: Seq<Pixel>) -> Seq<u8> {
    Seq::new(((pixels.len() + 7) / 8) as nat, |i: int| spec_lsb_bits(pixels, 8 * i, 8))
}

/// The packed pixel buffer of the first `n` decoded rows, concatenated.
pub open spec fn spec_image_bytes(rows: Seq<Seq<u8>>, step: int, n: int) -> Seq<u8>
    decreases n,
{
    if n <= 0 {
        Seq::<u8>::empty()
    } else {
        spec_image_bytes(rows, step, n - 1) + spec_pack_pixels(spec_row_pixels(rows[n - 1], step))
    }
}

proof fn lemma_lsb_or_zero(b: u8)
    by (bit_vector)
    ensures
        b | 0u8 == b,
{
}

proof fn lemma_lsb_mask_facts(j: u8)
    by (bit_vector)
    requires
        j < 8,
    ensures
        ((1u8 << j) == 0x80u8) <==> (j == 7),
        ((1u8 << j) == 1u8) <==> (j == 0),
        j < 7 ==> ((1u8 << j) << 1) == (1u8 << ((j + 1) as u8)),
{
}

/// Packing stops changing once the positions run past the end of the row.
proof fn lemma_lsb_bits_pad(pixels: Seq<Pixel>, base: int, j: int, m: int)
    requires
        0 <= j <= m <= 8,
        base + j >= pixels.len(),
        base >= 0,
    ensures
        spec_lsb_bits(pixels, base, m) == spec_lsb_bits(pixels, base, j),
    decreases m,
{
    if m > j {
        lemma_lsb_bits_pad(pixels, base, j, m - 1);
        lemma_lsb_or_zero(spec_lsb_bits(pixels, base, m - 1));
    }
}

/// std's I/O error type, declared opaque so the library's error type can
/// carry it through.
#[verifier::external_type_specification]
#[verifier::external_body]
pub struct ExIoError(std::io::Error);

/// The png crate's decoder error type, declared opaque so the library's
/// error type can carry it through.
#[verifier::external_type_specification]
#[verifier::external_body]
pub struct ExDecodingError(png::DecodingError);

/// Why loading an input image failed: an I/O failure while reading it, a
/// failure inside the PNG decoder, or a sample layout the packer does not
/// support.
#[derive(Debug)]
pub enum ImageLoadingError {
    IOError(std::io::Error),
    DecodingError(png::DecodingError),
    UnsupportedColorType,
}

/// Packs the decoded sample rows of an image into the bit-per-pixel buffer
/// that `InputPNGImage` reads: each row independently, one bit per whole
/// pixel, least significant bit first within each byte, the final byte of a
/// row padded with clear bits. Fails exactly when the sample layout is
/// unsupported and there is at least one row to decode.
pub fn read_png_image_data(color_type: ColorKind, rows: &Vec<Vec<u8>>) -> (r: Result<
    Vec<u8>,
    ImageLoadingError,
>)
    ensures
        spec_step(color_type) > 0 ==> (r matches Ok(data) && data@ == spec_image_bytes(
            rows.deep_view(),
            spec_step(color_type),
            rows@.len() as int,
        )),
        spec_step(color_type) == 0 && rows@.len() > 0 ==> (r matches Err(e)
            && e is UnsupportedColorType),
        spec_step(color_type) == 0 && rows@.len() == 0 ==> (r matches Ok(data) && data@
            == Seq::<u8>::empty()),
{
    let mut data: Vec<u8> = Vec::new();
    let mut ri: usize = 0;
    while ri < rows.len()
        invariant
            ri <= rows@.len(),
            spec_step(color_type) == 0 ==> ri == 0,
            data@ == spec_image_bytes(rows.deep_view(), spec_step(color_type), ri as int),
        decreases rows@.len() - ri,
    {
        let row: &Vec<u8> = &rows[ri];
        let ghost step = spec_step(color_type);
        proof {
            assert(rows.deep_view()[ri as int] =~= row@);
        }
        let iter_opt = ImageRowIterator::new(row.as_slice(), color_type);
        let mut image_row = match iter_opt {
            Some(it) => it,
            None => {
                return Err(ImageLoadingError::UnsupportedColorType);
            },
        };
        let ghost pixels = spec_row_pixels(row@, step);
        let ghost base = data@;
        let mut mask: u8 = 1;
        let mut current_byte: u8 = 0;
        let ghost mut k: int = 0;
        proof {
            assert(1u8 == 1u8 << 0u8) by (bit_vector);
            assert(data@ =~= base + Seq::new(0nat, |i: int| spec_lsb_bits(pixels, 8 * i, 8)));
        }
        loop
            invariant_except_break
                image_row.wf(),
                image_row.spec_row() == row@,
                image_row.spec_sample_step() == step,
                1 <= step <= 4,
                0 <= k <= pixels.len(),
                image_row.spec_index() == k * step,
                pixels == spec_row_pixels(row@, step),
                pixels.len() == row@.len() as int / step,
                data@ == base + Seq::new((k / 8) as nat, |i: int| spec_lsb_bits(pixels, 8 * i, 8)),
                current_byte == spec_lsb_bits(pixels, 8 * (k / 8), k % 8),
                mask == 1u8 << ((k % 8) as u8),
            ensures
                k == pixels.len(),
                data@ == base + Seq::new((k / 8) as nat, |i: int| spec_lsb_bits(pixels, 8 * i, 8)),
                current_byte == spec_lsb_bits(pixels, 8 * (k / 8), k % 8),
                mask == 1u8 << ((k % 8) as u8),
            decreases pixels.len() - k,
        {
            let px_opt = image_row.next();
            let pixel = match px_opt {
                Some(p) => p,
                None => {
                    proof {
                        // row@.len() < (k + 1) * step, so every whole chunk is consumed
                        lemma_mul_is_distributive_add_other_way(step, k, 1);
                        lemma_fundamental_div_mod_converse(
                            k * step + step - 1,
                            step,
                            k,
                            step - 1,
                        );
                        lemma_div_is_ordered(row@.len() as int, k * step + step - 1, step);
                    }
                    break;
                },
            };
            proof {
                // one more whole chunk fits, so k indexes a pixel of the row
                lemma_mul_is_distributive_add_other_way(step, k, 1);
                lemma_mul_is_commutative(k + 1, step);
                lemma_div_multiples_vanish(k + 1, step);
                lemma_div_is_ordered(step * (k + 1), row@.len() as int, step);
                assert(k < pixels.len());
                assert(pixel == pixels[k]);
                lemma_fundamental_div_mod(k, 8);
            }
            if pixel.is_set() {
                current_byte = current_byte | mask;
            } else {
                proof {
                    lemma_lsb_or_zero(current_byte);
                }
            }
            proof {
                assert(current_byte == spec_lsb_bits(pixels, 8 * (k / 8), k % 8 + 1));
            }
            if mask == 0b10000000 {
                proof {
                    lemma_lsb_mask_facts((k % 8) as u8);
                    assert(k % 8 == 7);
                    lemma_fundamental_div_mod_converse(k + 1, 8, k / 8 + 1, 0);
                }
                data.push(current_byte);
                current_byte = 0;
                mask = 1;
                proof {
                    assert(1u8 == 1u8 << 0u8) by (bit_vector);
                    assert(data@ =~= base + Seq::new(
                        (k / 8 + 1) as nat,
                        |i: int| spec_lsb_bits(pixels, 8 * i, 8),
                    ));
                    k = k + 1;
                }
            } else {
                proof {
                    lemma_lsb_mask_facts((k % 8) as u8);
                    assert(k % 8 < 7);
                    lemma_fundamental_div_mod_converse(k + 1, 8, k / 8, k % 8 + 1);
                }
                mask = mask << 1;
                proof {
                    k = k + 1;
                }
            }
        }
        // pad the row out to a whole byte, so that the next row starts on a
        // byte boundary as the pixel addressing expects
        proof {
            lemma_fundamental_div_mod(k, 8);
            lemma_lsb_mask_facts((k % 8) as u8);
        }
        if mask != 1 {
            proof {
                assert(k % 8 != 0);
                lemma_lsb_bits_pad(pixels, 8 * (k / 8), k % 8, 8);
                lemma_fundamental_div_mod_converse(k + 7, 8, k / 8 + 1, k % 8 - 1);
            }
            data.push(current_byte);
            proof {
                assert(data@ =~= base + spec_pack_pixels(pixels));
            }
        } else {
            proof {
                assert(k % 8 == 0);
                lemma_fundamental_div_mod_converse(k + 7, 8, k / 8, 7);
                assert(data@ =~= base + spec_pack_pixels(pixels));
            }
        }
        proof {
            assert(data@ =~= spec_image_bytes(
                rows.deep_view(),
                spec_step(color_type),
                ri as int + 1,
            ));
        }
        ri = ri + 1;
    }
    Ok(data)
}

/// The padded row width and the packed byte count agree: a row of `w` bits,
/// padded up to a whole byte, takes `(w + 7) / 8` bytes.
proof fn lemma_width_offset_nbytes(w: int)
    requires
        0 <= w,
    ensures
        spec_width_offset(w) == (w + 7) / 8,
{
    lemma_fundamental_div_mod(w, 8);
    lemma_mod_bound(w, 8);
    if w % 8 == 0 {
        lemma_fundamental_div_mod_converse(w + 7, 8, w / 8, 7);
    } else {
        lemma_fundamental_div_mod_converse(w + 7, 8, w / 8 + 1, w % 8 - 1);
    }
}

/// Bits at positions `j >= k` are still clear after packing only the first
/// `k` pixels of a byte.
proof fn lemma_lsb_bits_high_zero(pixels: Seq<Pixel>, base: int, k: int, j: u8)
    requires
        0 <= k <= 8,
        k <= j < 8,
    ensures
        (spec_lsb_bits(pixels, base, k) >> j) & 1 == 0,
    decreases k,
{
    if k <= 0 {
        assert((0u8 >> j) & 1 == 0) by (bit_vector)
            requires
                j < 8,
        ;
    } else {
        lemma_lsb_bits_high_zero(pixels, base, k - 1, j);
        let prev = spec_lsb_bits(pixels, base, k - 1);
        let ku = (k - 1) as u8;
        if base + (k - 1) < pixels.len() && pixels[base + (k - 1)].spec_is_set() {
            assert(((prev | (1u8 << ku)) >> j) & 1 == 0) by (bit_vector)
                requires
                    ku < j < 8,
                    (prev >> j) & 1 == 0,
            ;
        } else {
            lemma_lsb_or_zero(prev);
        }
    }
}

/// Bit `j` of a packed byte reproduces pixel `base + j` of the row.
proof fn lemma_lsb_bits_char(pixels: Seq<Pixel>, base: int, k: int, j: u8)
    requires
        0 <= base,
        j < k <= 8,
    ensures
        (spec_lsb_bits(pixels, base, k) >> j) & 1 == (if base + j < pixels.len() && pixels[base
            + j].spec_is_set() {
            1u8
        } else {
            0u8
        }),
    decreases k,
{
    let prev = spec_lsb_bits(pixels, base, k - 1);
    let ku = (k - 1) as u8;
    let on = base + (k - 1) < pixels.len() && pixels[base + (k - 1)].spec_is_set();
    if j == k - 1 {
        if on {
            assert(((prev | (1u8 << ku)) >> ku) & 1 == 1) by (bit_vector)
                requires
                    ku < 8,
            ;
        } else {
            lemma_lsb_bits_high_zero(pixels, base, k - 1, j);
            lemma_lsb_or_zero(prev);
        }
    } else {
        lemma_lsb_bits_char(pixels, base, k - 1, j);
        if on {
            assert(((prev | (1u8 << ku)) >> j) & 1 == (prev >> j) & 1) by (bit_vector)
                requires
                    j < ku < 8,
            ;
        } else {
            lemma_lsb_or_zero(prev);
        }
    }
}

/// When every packed row takes `wo` bytes, the packed buffer of the first
/// `n` rows takes `n * wo` bytes.
proof fn lemma_image_bytes_len(rows: Seq<Seq<u8>>, step: int, wo: int, n: int)
    requires
        0 <= n <= rows.len(),
        forall|i: int|
            0 <= i < rows.len() ==> #[trigger] spec_pack_pixels(
                spec_row_pixels(rows[i], step),
            ).len() == wo,
    ensures
        spec_image_bytes(rows, step, n).len() == n * wo,
    decreases n,
{
    if n > 0 {
        lemma_image_bytes_len(rows, step, wo, n - 1);
        let prev = spec_image_bytes(rows, step, n - 1);
        let packed = spec_pack_pixels(spec_row_pixels(rows[n - 1], step));
        assert(spec_image_bytes(rows, step, n) == prev + packed);
        assert((prev + packed).len() == prev.len() + packed.len());
        assert(prev.len() == (n - 1) * wo);
        assert(packed.len() == wo);
        assert((n - 1) * wo + wo == n * wo) by (nonlinear_arith);
    } else {
        assert(n == 0);
        assert(n * wo == 0) by (nonlinear_arith)
            requires
                n == 0,
        ;
    }
}

/// Byte `j` of segment `y` of the packed buffer is byte `j` of packed row
/// `y`.
proof fn lemma_image_bytes_index(rows: Seq<Seq<u8>>, step: int, wo: int, n: int, y: int, j: int)
    requires
        0 <= n <= rows.len(),
        0 <= y < n,
        0 <= j < wo,
        forall|i: int|
            0 <= i < rows.len() ==> #[trigger] spec_pack_pixels(
                spec_row_pixels(rows[i], step),
            ).len() == wo,
    ensures
        spec_image_bytes(rows, step, n)[y * wo + j] == spec_pack_pixels(
            spec_row_pixels(rows[y], step),
        )[j],
    decreases n,
{
    lemma_image_bytes_len(rows, step, wo, n - 1);
    lemma_mul_is_distributive_add_other_way(wo, y, 1);
    if y == n - 1 {
        lemma_mul_is_commutative(y, wo);
    } else {
        lemma_image_bytes_index(rows, step, wo, n - 1, y, j);
        lemma_mul_inequality(y + 1, n - 1, wo);
    }
}

/// The packed buffer answers pixel queries faithfully: when every decoded
/// row holds exactly `width` whole pixels, bit `x % 8` of byte
/// `y * spec_width_offset(width) + x / 8` of the buffer that
/// `read_png_image_data` builds is one exactly when pixel `x` of row `y` is
/// set. Together with the definition of `InputPNGImage::spec_pixel`, an
/// image built over that buffer reports exactly the decoded pixels.
pub proof fn lemma_packed_buffer_pixel(rows: Seq<Seq<u8>>, step: int, width: int, x: int, y: int)
    requires
        1 <= step,
        0 < width,
        0 <= y < rows.len(),
        0 <= x < width,
        forall|i: int|
            0 <= i < rows.len() ==> #[trigger] spec_row_pixels(rows[i], step).len() == width,
    ensures
        ({
            let data = spec_image_bytes(rows, step, rows.len() as int);
            let offset = y * spec_width_offset(width) + x / 8;
            &&& 0 <= offset < data.len()
            &&& (((data[offset] >> ((x % 8) as u8)) & 1 == 1) <==> spec_row_pixels(
                rows[y],
                step,
            )[x].spec_is_set())
        }),
{
    let wo = spec_width_offset(width);
    let pixels = spec_row_pixels(rows[y], step);
    lemma_width_offset_nbytes(width);
    assert forall|i: int| 0 <= i < rows.len() implies #[trigger] spec_pack_pixels(
        spec_row_pixels(rows[i], step),
    ).len() == wo by {
        assert(spec_row_pixels(rows[i], step).len() == width);
    }
    // x / 8 indexes a byte of the row: x < width <= 8 * wo
    lemma_fundamental_div_mod(x, 8);
    lemma_mod_bound(x, 8);
    lemma_fundamental_div_mod(width + 7, 8);
    lemma_mod_bound(width + 7, 8);
    assert(width <= 8 * wo);
    assert(x / 8 < wo) by {
        if x / 8 >= wo {
            lemma_mul_inequality(wo, x / 8, 8);
            lemma_mul_is_commutative(wo, 8);
            lemma_mul_is_commutative(x / 8, 8);
        }
    }
    lemma_image_bytes_len(rows, step, wo, rows.len() as int);
    lemma_image_bytes_index(rows, step, wo, rows.len() as int, y, x / 8);
    // the offset lies in the buffer
    lemma_mul_is_distributive_add_other_way(wo, y, 1);
    lemma_mul_inequality(y + 1, rows.len() as int, wo);
    // bit x % 8 of that byte is pixel x
    lemma_lsb_bits_char(pixels, 8 * (x / 8), 8, (x % 8) as u8);
}

/// Holds the png crate's row reader. Verus refuses a declaration of the
/// reader type itself (its generic parameter is bounded by std traits that
/// carry no Verus declaration), so the reader is held opaquely in this
/// struct instead and reached only through the trusted wrappers below.
#[verifier::external_body]
pub struct PngRowReader {
    inner: png::Reader<std::io::Cursor<Vec<u8>>>,
}

// PNG decoding is deterministic: what the png crate's decoder makes of a
// stream is a function of the stream's bytes alone. The spec functions
// below name those results; the trusted wrappers state their contracts
// over the names, and nothing else says what the names are on given bytes.
/// Whether png::Decoder::read_info accepts the stream `data`.
pub uninterp spec fn png_ok(data: Seq<u8>) -> bool;

/// The image width that the decoder reads from the header of `data`.
pub uninterp spec fn png_width(data: Seq<u8>) -> u32;

/// The image height that the decoder reads from the header of `data`.
pub uninterp spec fn png_height(data: Seq<u8>) -> u32;

/// The sample layout that the decoder reads from the header of `data`.
pub uninterp spec fn png_color(data: Seq<u8>) -> ColorKind;

/// The rows of samples that the decoder yields for `data`, in order, up to
/// the first clean end of the row stream or the first row error.
pub uninterp spec fn png_rows(data: Seq<u8>) -> Seq<Seq<u8>>;

/// Whether the row stream of `data` ends cleanly after `png_rows(data)`,
/// rather than with a row error.
pub uninterp spec fn png_rows_ok(data: Seq<u8>) -> bool;

/// The stream that a reader was opened over.
pub uninterp spec fn reader_source(reader: PngRowReader) -> Seq<u8>;

/// How many rows a reader has yielded so far.
pub uninterp spec fn reader_served(reader: PngRowReader) -> int;

/// Relies on png::Decoder::new and png::Decoder::read_info: builds a PNG
/// decoder over the given bytes (the cursor only adapts the copied bytes to
/// the decoder's reader interface) and parses the stream up to the pixel
/// data. It succeeds exactly when the decoder accepts the stream, handing
/// back a fresh reader over it, else the decoder's own error.
#[verifier::external_body]
fn png_open_reader(data: &[u8]) -> (r: Result<PngRowReader, png::DecodingError>)
    ensures
        r matches Ok(reader) ==> {
            &&& png_ok(data@)
            &&& reader_source(reader) == data@
            &&& reader_served(reader) == 0
        },
        r is Err ==> !png_ok(data@),
{
    match png::Decoder::new(std::io::Cursor::new(data.to_vec())).read_info() {
        Ok(inner) => Ok(PngRowReader { inner }),
        Err(e) => Err(e),
    }
}

/// Relies on png::Reader::info: reads the image dimensions from the header
/// and maps each of the decoder's color types onto the library's sample
/// layouts, one arm each.
#[verifier::external_body]
fn png_dims(reader: &PngRowReader) -> (r: (u32, u32, ColorKind))
    requires
        reader_served(*reader) == 0,
    ensures
        r.0 == png_width(reader_source(*reader)),
        r.1 == png_height(reader_source(*reader)),
        r.2 == png_color(reader_source(*reader)),
{
    let info = reader.inner.info();
    let kind = match info.color_type {
        png::ColorType::Grayscale => ColorKind::Grayscale,
        png::ColorType::GrayscaleAlpha => ColorKind::GrayscaleAlpha,
        png::ColorType::Rgb => ColorKind::Rgb,
        png::ColorType::Rgba => ColorKind::Rgba,
        png::ColorType::Indexed => ColorKind::Indexed,
    };
    (info.width, info.height, kind)
}

/// Relies on png::Reader::next_row: yields the samples of the next decoded
/// row while rows remain, `None` once the row stream ends cleanly, and the
/// decoder's own error where the stream ends in one.
#[verifier::external_body]
fn png_next_row(reader: &mut PngRowReader) -> (r: Result<Option<Vec<u8>>, png::DecodingError>)
    ensures
        reader_source(*final(reader)) == reader_source(*old(reader)),
        0 <= reader_served(*old(reader)) < png_rows(reader_source(*old(reader))).len() ==> (
        r matches Ok(Some(row)) && row@ == png_rows(reader_source(*old(reader)))[reader_served(
            *old(reader),
        )] && reader_served(*final(reader)) == reader_served(*old(reader)) + 1),
        reader_served(*old(reader)) == png_rows(reader_source(*old(reader))).len() && png_rows_ok(
            reader_source(*old(reader)),
        ) ==> r matches Ok(None),
        reader_served(*old(reader)) == png_rows(reader_source(*old(reader))).len() && !png_rows_ok(
            reader_source(*old(reader)),
        ) ==> r is Err,
{
    reader.inner.next_row().map(|opt| opt.map(|row| row.data().to_vec()))
}

impl InputPNGImage {
    /// Decodes a PNG stream held in memory into a pixel source: reads the
    /// dimensions from the header, pulls the decoded rows until the stream
    /// ends or the first row error, and packs them into the bit-per-pixel
    /// buffer. The first decoder error, at the header or among the rows,
    /// is returned unchanged; an unsupported sample layout with rows to
    /// decode is its own error; on success the image carries the header's
    /// dimensions over the packed form of all decoded rows.
    pub fn new(data: &[u8]) -> (r: Result<InputPNGImage, ImageLoadingError>)
        ensures
            !png_ok(data@) ==> (r matches Err(e) && e is DecodingError),
            png_ok(data@) && !png_rows_ok(data@) ==> (r matches Err(e) && e is DecodingError),
            png_ok(data@) && png_rows_ok(data@) && spec_step(png_color(data@)) == 0 && png_rows(
                data@,
            ).len() > 0 ==> (r matches Err(e) && e is UnsupportedColorType),
            png_ok(data@) && png_rows_ok(data@) && (spec_step(png_color(data@)) > 0 || png_rows(
                data@,
            ).len() == 0) ==> (r matches Ok(img) && {
                &&& img.width == png_width(data@)
                &&& img.height == png_height(data@)
                &&& img.image_data@ == spec_image_bytes(
                    png_rows(data@),
                    spec_step(png_color(data@)),
                    png_rows(data@).len() as int,
                )
            }),
    {
        let mut reader = match png_open_reader(data) {
            Ok(r) => r,
            Err(e) => {
                return Err(ImageLoadingError::DecodingError(e));
            },
        };
        let (width, height, color_type) = png_dims(&reader);
        let mut rows: Vec<Vec<u8>> = Vec::new();
        loop
            invariant_except_break
                png_ok(data@),
                reader_source(reader) == data@,
                0 <= reader_served(reader) <= png_rows(data@).len(),
                rows@.len() == reader_served(reader),
                rows.deep_view() == png_rows(data@).take(reader_served(reader)),
            ensures
                png_rows_ok(data@),
                rows.deep_view() == png_rows(data@),
            decreases png_rows(data@).len() - reader_served(reader),
        {
            match png_next_row(&mut reader) {
                Err(e) => {
                    return Err(ImageLoadingError::DecodingError(e));
                },
                Ok(None) => {
                    proof {
                        assert(rows.deep_view() =~= png_rows(data@));
                    }
                    break;
                },
                Ok(Some(row)) => {
                    proof {
                        assert(row.deep_view() =~= row@);
                    }
                    rows.push(row);
                    proof {
                        assert(rows.deep_view() =~= png_rows(data@).take(
                            reader_served(reader),
                        ));
                    }
                },
            }
        }
        let image_data = match read_png_image_data(color_type, &rows) {
            Ok(d) => d,
            Err(e) => {
                return Err(e);
            },
        };
        Ok(InputPNGImage { width, height, image_data })
    }
}

} // verus!
