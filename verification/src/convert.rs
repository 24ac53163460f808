//! The bit packer and orchestrator: walks the glyph grid of a pixel source,
//! packs each glyph row into bytes, applies the per-byte transform, and
//! renders the whole output through the format emitter.
use crate::bytewriter::ByteWriter;
use crate::config::{BitNumbering, FontMetrics, Format, SourceCodeOptions};
use crate::image::InputImage;
use crate::numfmt::{append_dec_u64, append_hex_pad2_u64, spec_dec, spec_hex_pad2};
use vstd::arithmetic::div_mod::{lemma_fundamental_div_mod, lemma_fundamental_div_mod_converse};
use vstd::arithmetic::mul::{lemma_mul_inequality, lemma_mul_is_distributive_add,
    lemma_mul_is_distributive_add_other_way};
use vstd::prelude::*;

verus! {

/// Packs the glyph grid of a fixed-width font bitmap and renders it in the
/// configured output format.
#[derive(Clone, Copy)]
pub struct FixedWidthFontConverter {
    pub font_metrics: FontMetrics,
    pub output_format: Format,
    pub source_code_options: SourceCodeOptions,
}

/// The byte with the bit order reversed: bit 0 and bit 7 swap, bit 1 and
/// bit 6 swap, and so on.
pub open spec fn spec_reverse_bits(b: u8) -> u8 {
    let nibbles = ((b & 0xF0) >> 4) | ((b & 0x0F) << 4);
    let pairs = ((nibbles & 0xCC) >> 2) | ((nibbles & 0x33) << 2);
    ((pairs & 0xAA) >> 1) | ((pairs & 0x55) << 1)
}

/// The transform applied to every packed byte before emission: reorder under
/// MSB numbering first, then invert if requested.
pub open spec fn spec_format_byte(options: SourceCodeOptions, b: u8) -> u8 {
    let reordered = if options.bit_numbering == BitNumbering::MSB {
        spec_reverse_bits(b)
    } else {
        b
    };
    if options.invert_bits {
        !reordered
    } else {
        reordered
    }
}

/// Reversing the bit order twice returns the original byte.
pub proof fn lemma_reverse_bits_involution(b: u8)
    by (bit_vector)
    ensures
        spec_reverse_bits(spec_reverse_bits(b)) == b,
{
}

/// Inverting a byte twice returns the original byte.
pub proof fn lemma_invert_involution(b: u8)
    by (bit_vector)
    ensures
        !!b == b,
{
}

/// Reordering and inversion commute: inverting before the reorder gives the
/// same byte as inverting after it, so the fixed reorder-then-invert order of
/// the transform is observationally equal to invert-then-reorder.
pub proof fn lemma_reverse_invert_commute(b: u8)
    by (bit_vector)
    ensures
        spec_reverse_bits(!b) == !spec_reverse_bits(b),
{
}

/// The number of packed bytes that one glyph row of `w` pixels produces.
pub open spec fn spec_nbytes(w: int) -> int {
    (w + 7) / 8
}

/// A row of `w` pixels fits one byte exactly when the width is at most 8.
pub proof fn lemma_single_byte_per_row(w: int)
    requires
        0 < w <= 8,
    ensures
        spec_nbytes(w) == 1,
{
}

/// A row of `w` pixels takes `w / 8` bytes, rounded up, each byte covering a
/// contiguous 8-pixel slice except possibly the last.
pub proof fn lemma_bytes_per_row(w: int)
    requires
        0 < w,
    ensures
        w % 8 == 0 ==> spec_nbytes(w) == w / 8,
        w % 8 != 0 ==> spec_nbytes(w) == w / 8 + 1,
{
}

/// How many pixels land in byte `byte_index` of a row of `w` pixels: 8 for
/// every full byte, and the remainder for the final partial byte.
pub open spec fn spec_chunk_bit_count(w: int, byte_index: int) -> int {
    if w - 8 * byte_index < 8 {
        w - 8 * byte_index
    } else {
        8
    }
}

/// The first `k` pixels of the chunk at `byte_index` of one glyph row, packed
/// into a byte: pixel `j` of the chunk lands in bit position `7 - j`, so the
/// first pixel occupies the most significant bit.
pub open spec fn spec_chunk_bits<T: InputImage>(
    img: &T,
    fm: FontMetrics,
    gx: int,
    gy: int,
    row: int,
    byte_index: int,
    k: int,
) -> u8
    decreases k,
{
    if k <= 0 {
        0u8
    } else {
        spec_chunk_bits(img, fm, gx, gy, row, byte_index, k - 1) | (if img.spec_pixel(
            gx * fm.width + 8 * byte_index + (k - 1),
            gy * fm.height + row,
        ) {
            0x80u8 >> ((k - 1) as u8)
        } else {
            0u8
        })
    }
}

/// Byte `byte_index` of the packed form of glyph row `row` of the glyph at
/// grid position `(gx, gy)`, before any transform.
pub open spec fn spec_packed_byte<T: InputImage>(
    img: &T,
    fm: FontMetrics,
    gx: int,
    gy: int,
    row: int,
    byte_index: int,
) -> u8 {
    spec_chunk_bits(img, fm, gx, gy, row, byte_index, spec_chunk_bit_count(fm.width as int, byte_index))
}

/// All packed bytes of one glyph row, left to right, before any transform.
pub open spec fn spec_glyph_row_bytes<T: InputImage>(
    img: &T,
    fm: FontMetrics,
    gx: int,
    gy: int,
    row: int,
) -> Seq<u8> {
    Seq::new(spec_nbytes(fm.width as int) as nat, |bi: int| spec_packed_byte(img, fm, gx, gy, row, bi))
}

proof fn lemma_or_zero_u8(b: u8)
    by (bit_vector)
    ensures
        b | 0u8 == b,
{
}

proof fn lemma_mask_shift(bit: u8)
    by (bit_vector)
    requires
        bit < 7,
    ensures
        (0x80u8 >> bit) >> 1 == 0x80u8 >> (bit + 1),
{
}

/// Bits at positions `7 - j` for `j >= k` are still clear after packing only
/// the first `k` pixels of a chunk.
proof fn lemma_chunk_bits_zero<T: InputImage>(
    img: &T,
    fm: FontMetrics,
    gx: int,
    gy: int,
    row: int,
    byte_index: int,
    k: int,
    j: u8,
)
    requires
        0 <= k <= 8,
        k <= j < 8,
    ensures
        (spec_chunk_bits(img, fm, gx, gy, row, byte_index, k) >> ((7 - j) as u8)) & 1 == 0,
    decreases k,
{
    if k <= 0 {
        assert((0u8 >> ((7 - j) as u8)) & 1 == 0) by (bit_vector)
            requires
                j < 8,
        ;
    } else {
        lemma_chunk_bits_zero(img, fm, gx, gy, row, byte_index, k - 1, j);
        let prev = spec_chunk_bits(img, fm, gx, gy, row, byte_index, k - 1);
        let ku = (k - 1) as u8;
        if img.spec_pixel(gx * fm.width + 8 * byte_index + (k - 1), gy * fm.height + row) {
            assert(((prev | (0x80u8 >> ku)) >> ((7 - j) as u8)) & 1 == 0) by (bit_vector)
                requires
                    ku < j < 8,
                    (prev >> ((7 - j) as u8)) & 1 == 0,
            ;
        } else {
            lemma_or_zero_u8(prev);
        }
    }
}

/// Bit `7 - j` of a packed chunk reproduces pixel `j` of that chunk.
proof fn lemma_chunk_bits_char<T: InputImage>(
    img: &T,
    fm: FontMetrics,
    gx: int,
    gy: int,
    row: int,
    byte_index: int,
    k: int,
    j: u8,
)
    requires
        j < k <= 8,
    ensures
        (spec_chunk_bits(img, fm, gx, gy, row, byte_index, k) >> ((7 - j) as u8)) & 1 == (
        if img.spec_pixel(gx * fm.width + 8 * byte_index + j, gy * fm.height + row) {
            1u8
        } else {
            0u8
        }),
    decreases k,
{
    let prev = spec_chunk_bits(img, fm, gx, gy, row, byte_index, k - 1);
    let ku = (k - 1) as u8;
    let set = img.spec_pixel(gx * fm.width + 8 * byte_index + (k - 1), gy * fm.height + row);
    if j == k - 1 {
        if set {
            assert(((prev | (0x80u8 >> ku)) >> ((7 - ku) as u8)) & 1 == 1) by (bit_vector)
                requires
                    ku < 8,
            ;
        } else {
            lemma_chunk_bits_zero(img, fm, gx, gy, row, byte_index, k - 1, j);
            lemma_or_zero_u8(prev);
        }
    } else {
        lemma_chunk_bits_char(img, fm, gx, gy, row, byte_index, k - 1, j);
        if set {
            assert(((prev | (0x80u8 >> ku)) >> ((7 - j) as u8)) & 1 == (prev >> ((7 - j) as u8))
                & 1) by (bit_vector)
                requires
                    j < ku < 8,
            ;
        } else {
            lemma_or_zero_u8(prev);
        }
    }
}

/// Concatenating the packed bytes of one glyph row bit by bit, left to right,
/// reproduces the row's pixel sequence: bit `7 - (i % 8)` of byte `i / 8` is
/// set exactly when pixel `i` of the row is set.
pub proof fn lemma_row_bits_reproduce_pixels<T: InputImage>(
    img: &T,
    fm: FontMetrics,
    gx: int,
    gy: int,
    row: int,
    i: int,
)
    requires
        fm.valid(),
        0 <= i < fm.width,
    ensures
        (spec_glyph_row_bytes(img, fm, gx, gy, row)[i / 8] >> ((7 - i % 8) as u8)) & 1 == (
        if img.spec_pixel(gx * fm.width + i, gy * fm.height + row) {
            1u8
        } else {
            0u8
        }),
{
    let bi = i / 8;
    let j = i % 8;
    lemma_fundamental_div_mod(i, 8);
    assert(0 <= bi < spec_nbytes(fm.width as int));
    assert(j < spec_chunk_bit_count(fm.width as int, bi));
    lemma_chunk_bits_char(img, fm, gx, gy, row, bi, spec_chunk_bit_count(fm.width as int, bi), j as u8);
}

impl FixedWidthFontConverter {
    /// Applies the configured byte transform: reverses the bit order under
    /// MSB numbering, then inverts every bit if inversion is requested.
    pub fn format_byte(&self, byte: u8) -> (r: u8)
        ensures
            r == spec_format_byte(self.source_code_options, byte),
    {
        let mut b = byte;
        if self.source_code_options.bit_numbering == BitNumbering::MSB {
            b = ((b & 0b11110000) >> 4) | ((b & 0b00001111) << 4);
            b = ((b & 0b11001100) >> 2) | ((b & 0b00110011) << 2);
            b = ((b & 0b10101010) >> 1) | ((b & 0b01010101) << 1);
        }
        if self.source_code_options.invert_bits {
            b = !b;
        }
        b
    }
}

/// Packs one pixel row of the glyph at grid position `(x, y)` into bytes,
/// walking the row left to right: `min(remaining, 8)` pixels per byte, the
/// first pixel of each chunk in the most significant bit, unused low bits of
/// a final partial byte left clear.
pub fn pack_glyph_row<T: InputImage>(
    image: &T,
    font_metrics: FontMetrics,
    x: u32,
    y: u32,
    row: u8,
) -> (bytes: Vec<u8>)
    requires
        font_metrics.valid(),
        (x as int) < image.spec_width() as int / (font_metrics.width as int),
        (y as int) < image.spec_height() as int / (font_metrics.height as int),
        row < font_metrics.height,
    ensures
        bytes@ == spec_glyph_row_bytes(image, font_metrics, x as int, y as int, row as int),
        bytes@.len() == spec_nbytes(font_metrics.width as int),
{
    let w: u8 = font_metrics.width;
    let h: u8 = font_metrics.height;
    let mut bytes: Vec<u8> = Vec::new();
    let mut remaining_bits: u8 = w;
    let mut byte_index: u8 = 0;
    proof {
        lemma_fundamental_div_mod(image.spec_width() as int, w as int);
        lemma_mul_inequality(
            x as int + 1,
            image.spec_width() as int / w as int,
            w as int,
        );
        lemma_fundamental_div_mod(image.spec_height() as int, h as int);
        lemma_mul_inequality(
            y as int + 1,
            image.spec_height() as int / h as int,
            h as int,
        );
        lemma_mul_is_distributive_add(w as int, x as int, 1);
        lemma_mul_is_distributive_add(h as int, y as int, 1);
        assert(x as int * w as int + w as int <= image.spec_width() as int) by {
            assert((x as int + 1) * (w as int) == x as int * w as int + 1 * w as int) by (nonlinear_arith);
        }
        assert(y as int * h as int + h as int <= image.spec_height() as int) by {
            assert((y as int + 1) * (h as int) == y as int * h as int + 1 * h as int) by (nonlinear_arith);
        }
    }
    while remaining_bits > 0
        invariant
            font_metrics.valid(),
            w == font_metrics.width,
            h == font_metrics.height,
            row < h,
            x as int * w as int + w as int <= image.spec_width() as int,
            y as int * h as int + h as int <= image.spec_height() as int,
            byte_index as int <= spec_nbytes(w as int),
            remaining_bits as int == (if 8 * (byte_index as int) < w as int {
                w as int - 8 * byte_index as int
            } else {
                0int
            }),
            remaining_bits == 0 ==> byte_index as int == spec_nbytes(w as int),
            bytes@ == Seq::new(
                byte_index as nat,
                |bi: int| spec_packed_byte(image, font_metrics, x as int, y as int, row as int, bi),
            ),
        decreases remaining_bits,
    {
        let bit_count: u8 = if remaining_bits < 8 {
            remaining_bits
        } else {
            8
        };
        let mut byte: u8 = 0;
        let mut mask: u8 = 0b10000000;
        let mut bit: u8 = 0;
        proof {
            assert(0x80u8 >> 0u8 == 0x80u8) by (bit_vector);
        }
        while bit < bit_count
            invariant
                font_metrics.valid(),
                w == font_metrics.width,
                h == font_metrics.height,
                row < h,
                x as int * w as int + w as int <= image.spec_width() as int,
                y as int * h as int + h as int <= image.spec_height() as int,
                bit <= bit_count,
                bit_count as int == spec_chunk_bit_count(w as int, byte_index as int),
                bit_count <= 8,
                8 * byte_index as int + bit_count as int <= w as int,
                byte == spec_chunk_bits(
                    image,
                    font_metrics,
                    x as int,
                    y as int,
                    row as int,
                    byte_index as int,
                    bit as int,
                ),
                bit < 8 ==> mask == 0x80u8 >> bit,
            decreases bit_count - bit,
        {
            let x_coord: u32 = x * (w as u32) + (bit as u32) + 8 * (byte_index as u32);
            let y_coord: u32 = y * (h as u32) + (row as u32);
            if image.is_pixel_set(x_coord, y_coord) {
                byte = byte | mask;
            } else {
                proof {
                    lemma_or_zero_u8(byte);
                }
            }
            proof {
                if bit < 7 {
                    lemma_mask_shift(bit);
                }
            }
            mask = mask >> 1;
            bit = bit + 1;
        }
        bytes.push(byte);
        proof {
            assert(bytes@ == Seq::new(
                byte_index as nat + 1,
                |bi: int| spec_packed_byte(image, font_metrics, x as int, y as int, row as int, bi),
            )) by {
                assert(bytes@ =~= Seq::new(
                    byte_index as nat + 1,
                    |bi: int| spec_packed_byte(image, font_metrics, x as int, y as int, row as int, bi),
                ));
            }
        }
        remaining_bits = remaining_bits - bit_count;
        byte_index = byte_index + 1;
    }
    bytes
}

/// The rendered tokens of the first `n` bytes of one packed row, each byte
/// transformed and then rendered in the output format.
pub open spec fn spec_bytes_text(
    f: Format,
    options: SourceCodeOptions,
    bytes: Seq<u8>,
    n: int,
) -> Seq<char>
    decreases n,
{
    if n <= 0 {
        Seq::<char>::empty()
    } else {
        spec_bytes_text(f, options, bytes, n - 1) + f.spec_byte(
            spec_format_byte(options, bytes[n - 1]),
        )
    }
}

/// The rendered byte tokens of the first `nrows` pixel rows of the glyph at
/// grid position `(gx, gy)`.
pub open spec fn spec_glyph_rows_text<T: InputImage>(
    c: FixedWidthFontConverter,
    img: &T,
    gx: int,
    gy: int,
    nrows: int,
) -> Seq<char>
    decreases nrows,
{
    if nrows <= 0 {
        Seq::<char>::empty()
    } else {
        spec_glyph_rows_text(c, img, gx, gy, nrows - 1) + spec_bytes_text(
            c.output_format,
            c.source_code_options,
            spec_glyph_row_bytes(img, c.font_metrics, gx, gy, nrows - 1),
            spec_nbytes(c.font_metrics.width as int),
        )
    }
}

/// The label identifying glyph `i`: its zero-based index rendered in hex and
/// in decimal.
pub open spec fn spec_glyph_label(i: nat) -> Seq<char> {
    "Character 0x"@ + spec_hex_pad2(i) + " ("@ + spec_dec(i) + ")"@
}

/// The whole rendered text of glyph `i` in a grid `gpr` glyphs wide: row
/// prefix, packed bytes of every pixel row, glyph comment, row terminator.
pub open spec fn spec_glyph_text<T: InputImage>(
    c: FixedWidthFontConverter,
    img: &T,
    gpr: int,
    i: int,
) -> Seq<char> {
    c.output_format.spec_begin_array_row() + spec_glyph_rows_text(
        c,
        img,
        i % gpr,
        i / gpr,
        c.font_metrics.height as int,
    ) + c.output_format.spec_comment(spec_glyph_label(i as nat))
        + c.output_format.spec_line_break()
}

/// The rendered text of the first `n` glyphs, in row-major grid order.
pub open spec fn spec_glyphs_text<T: InputImage>(
    c: FixedWidthFontConverter,
    img: &T,
    gpr: int,
    n: int,
) -> Seq<char>
    decreases n,
{
    if n <= 0 {
        Seq::<char>::empty()
    } else {
        spec_glyphs_text(c, img, gpr, n - 1) + spec_glyph_text(c, img, gpr, n - 1)
    }
}

/// The complete output text of one conversion run: header, array opening,
/// every glyph of the grid in row-major order, array closing, footer. The
/// grid is `width / font_width` by `height / font_height` glyphs; trailing
/// pixels that do not fill a whole cell are ignored.
pub open spec fn spec_convert<T: InputImage>(
    c: FixedWidthFontConverter,
    img: &T,
    timestamp: Seq<char>,
) -> Seq<char> {
    let gpr = img.spec_width() as int / c.font_metrics.width as int;
    let grows = img.spec_height() as int / c.font_metrics.height as int;
    c.output_format.spec_begin(timestamp) + c.output_format.spec_begin_array("font"@)
        + spec_glyphs_text(c, img, gpr, grows * gpr) + c.output_format.spec_end_array()
        + c.output_format.spec_end()
}

/// Renders the label of glyph `i`.
fn glyph_label(i: u64) -> (r: String)
    ensures
        r@ == spec_glyph_label(i as nat),
{
    let mut s = String::from_str("Character 0x");
    append_hex_pad2_u64(&mut s, i);
    s.append(" (");
    append_dec_u64(&mut s, i);
    s.append(")");
    proof {
        assert(s@ =~= spec_glyph_label(i as nat));
    }
    s
}

impl FixedWidthFontConverter {
    /// Converts the whole glyph grid of `image` into the rendered output
    /// text: header and array opening first, then every glyph in row-major
    /// order, then the array closing and footer.
    pub fn convert<T: InputImage>(&self, image: &T, timestamp: &String) -> (r: String)
        requires
            self.font_metrics.valid(),
        ensures
            r@ == spec_convert(*self, image, timestamp@),
    {
        let ghost c = *self;
        let w: u8 = self.font_metrics.width;
        let h: u8 = self.font_metrics.height;
        let mut s = self.output_format.begin(timestamp);
        let ba = self.output_format.begin_array("font");
        s.append(ba.as_str());
        let ghost head = c.output_format.spec_begin(timestamp@) + c.output_format.spec_begin_array(
            "font"@,
        );
        let gpr: u32 = image.width() / (w as u32);
        let grows: u32 = image.height() / (h as u32);
        let mut character_count: u64 = 0;
        let mut y: u32 = 0;
        proof {
            assert(s@ =~= head + spec_glyphs_text(c, image, gpr as int, 0));
        }
        while y < grows
            invariant
                c == *self,
                c.font_metrics.valid(),
                w == c.font_metrics.width,
                h == c.font_metrics.height,
                gpr as int == image.spec_width() as int / (w as int),
                grows as int == image.spec_height() as int / (h as int),
                y <= grows,
                character_count as int == y as int * gpr as int,
                head == c.output_format.spec_begin(timestamp@)
                    + c.output_format.spec_begin_array("font"@),
                s@ == head + spec_glyphs_text(c, image, gpr as int, character_count as int),
            decreases grows - y,
        {
            let mut x: u32 = 0;
            while x < gpr
                invariant
                    c == *self,
                    c.font_metrics.valid(),
                    w == c.font_metrics.width,
                    h == c.font_metrics.height,
                    gpr as int == image.spec_width() as int / (w as int),
                    grows as int == image.spec_height() as int / (h as int),
                    y < grows,
                    x <= gpr,
                    character_count as int == y as int * gpr as int + x as int,
                    head == c.output_format.spec_begin(timestamp@)
                        + c.output_format.spec_begin_array("font"@),
                    s@ == head + spec_glyphs_text(c, image, gpr as int, character_count as int),
                decreases gpr - x,
            {
                proof {
                    lemma_fundamental_div_mod_converse(
                        character_count as int,
                        gpr as int,
                        y as int,
                        x as int,
                    );
                }
                let bar = self.output_format.begin_array_row();
                s.append(bar.as_str());
                proof {
                    assert(s@ =~= head + spec_glyphs_text(c, image, gpr as int, character_count as int)
                        + c.output_format.spec_begin_array_row()
                        + spec_glyph_rows_text(c, image, x as int, y as int, 0));
                }
                let mut row: u8 = 0;
                while row < h
                    invariant
                        c == *self,
                        c.font_metrics.valid(),
                        w == c.font_metrics.width,
                        h == c.font_metrics.height,
                        gpr as int == image.spec_width() as int / (w as int),
                        grows as int == image.spec_height() as int / (h as int),
                        y < grows,
                        x < gpr,
                        row <= h,
                        character_count as int == y as int * gpr as int + x as int,
                        head == c.output_format.spec_begin(timestamp@)
                            + c.output_format.spec_begin_array("font"@),
                        s@ == head + spec_glyphs_text(c, image, gpr as int, character_count as int)
                            + c.output_format.spec_begin_array_row()
                            + spec_glyph_rows_text(c, image, x as int, y as int, row as int),
                    decreases h - row,
                {
                    let bytes = pack_glyph_row(image, self.font_metrics, x, y, row);
                    let mut bi: usize = 0;
                    proof {
                        assert(s@ =~= head
                            + spec_glyphs_text(c, image, gpr as int, character_count as int)
                            + c.output_format.spec_begin_array_row()
                            + spec_glyph_rows_text(c, image, x as int, y as int, row as int)
                            + spec_bytes_text(c.output_format, c.source_code_options, bytes@, 0));
                    }
                    while bi < bytes.len()
                        invariant
                            c == *self,
                            bi <= bytes@.len(),
                            bytes@ == spec_glyph_row_bytes(
                                image,
                                c.font_metrics,
                                x as int,
                                y as int,
                                row as int,
                            ),
                            head == c.output_format.spec_begin(timestamp@)
                                + c.output_format.spec_begin_array("font"@),
                            s@ == head
                                + spec_glyphs_text(c, image, gpr as int, character_count as int)
                                + c.output_format.spec_begin_array_row()
                                + spec_glyph_rows_text(c, image, x as int, y as int, row as int)
                                + spec_bytes_text(
                                c.output_format,
                                c.source_code_options,
                                bytes@,
                                bi as int,
                            ),
                        decreases bytes@.len() - bi,
                    {
                        let tok = self.output_format.byte(self.format_byte(bytes[bi]));
                        s.append(tok.as_str());
                        proof {
                            assert(s@ =~= head
                                + spec_glyphs_text(c, image, gpr as int, character_count as int)
                                + c.output_format.spec_begin_array_row()
                                + spec_glyph_rows_text(c, image, x as int, y as int, row as int)
                                + spec_bytes_text(
                                c.output_format,
                                c.source_code_options,
                                bytes@,
                                bi as int + 1,
                            ));
                        }
                        bi = bi + 1;
                    }
                    proof {
                        assert(bytes@.len() == spec_nbytes(c.font_metrics.width as int));
                        assert(s@ =~= head
                            + spec_glyphs_text(c, image, gpr as int, character_count as int)
                            + c.output_format.spec_begin_array_row()
                            + spec_glyph_rows_text(c, image, x as int, y as int, row as int + 1));
                    }
                    row = row + 1;
                }
                let label = glyph_label(character_count);
                let cm = self.output_format.comment(&label);
                s.append(cm.as_str());
                let lb = self.output_format.line_break();
                s.append(lb.as_str());
                proof {
                    assert(s@ =~= head + spec_glyphs_text(
                        c,
                        image,
                        gpr as int,
                        character_count as int + 1,
                    ));
                    assert(y as int * gpr as int <= 0xFFFF_FFFF * 0xFFFF_FFFF) by (nonlinear_arith)
                        requires
                            0 <= y as int <= 0xFFFF_FFFF,
                            0 <= gpr as int <= 0xFFFF_FFFF,
                    ;
                }
                character_count = character_count + 1;
                x = x + 1;
            }
            proof {
                lemma_mul_is_distributive_add_other_way(gpr as int, y as int, 1);
            }
            y = y + 1;
        }
        let ea = self.output_format.end_array();
        s.append(ea.as_str());
        let en = self.output_format.end();
        s.append(en.as_str());
        proof {
            assert(s@ =~= spec_convert(c, image, timestamp@));
        }
        s
    }
}

} // verus!
