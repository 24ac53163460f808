//! Tests of the bit packer, the byte transform, and whole-run conversion.
use fontpack::config::{BitNumbering, Format, FontMetrics, SourceCodeOptions};
use fontpack::convert::{pack_glyph_row, FixedWidthFontConverter};
use fontpack::image::InputPNGImage;

fn converter(format: Format, msb: bool, invert: bool) -> FixedWidthFontConverter {
    FixedWidthFontConverter {
        font_metrics: FontMetrics { height: 8, width: 8 },
        output_format: format,
        source_code_options: SourceCodeOptions {
            bit_numbering: if msb { BitNumbering::MSB } else { BitNumbering::LSB },
            invert_bits: invert,
        },
    }
}

#[test]
fn format_byte_lsb_is_identity() {
    let c = converter(Format::C, false, false);
    for b in [0x00u8, 0x01, 0x80, 0xCD, 0xFF] {
        assert_eq!(c.format_byte(b), b);
    }
}

#[test]
fn format_byte_msb_reverses_bit_order() {
    let c = converter(Format::C, true, false);
    assert_eq!(c.format_byte(0b10000000), 0b00000001);
    assert_eq!(c.format_byte(0b00000001), 0b10000000);
    assert_eq!(c.format_byte(0b11001101), 0b10110011);
    assert_eq!(c.format_byte(0b11110000), 0b00001111);
}

#[test]
fn format_byte_reverse_twice_is_identity() {
    let c = converter(Format::C, true, false);
    for b in [0x00u8, 0x01, 0x5A, 0xCD, 0xFE, 0xFF] {
        assert_eq!(c.format_byte(c.format_byte(b)), b);
    }
}

#[test]
fn format_byte_invert_twice_is_identity() {
    let c = converter(Format::C, false, true);
    for b in [0x00u8, 0x01, 0x5A, 0xCD, 0xFE, 0xFF] {
        assert_eq!(c.format_byte(c.format_byte(b)), b);
    }
}

#[test]
fn format_byte_reorder_then_invert() {
    let c = converter(Format::C, true, true);
    // reorder first (0x01 -> 0x80), then invert (-> 0x7F)
    assert_eq!(c.format_byte(0x01), 0x7F);
    // the two transforms commute, so inverting before reordering agrees
    let reorder = converter(Format::C, true, false);
    let invert = converter(Format::C, false, true);
    for b in [0x00u8, 0x01, 0x5A, 0xCD, 0xFE, 0xFF] {
        assert_eq!(invert.format_byte(reorder.format_byte(b)), reorder.format_byte(
            invert.format_byte(b),
        ));
        assert_eq!(c.format_byte(b), invert.format_byte(reorder.format_byte(b)));
    }
}

#[test]
fn all_set_glyph_packs_to_ff_rows() {
    let image = InputPNGImage { width: 8, height: 8, image_data: vec![0xFF; 8] };
    let fm = FontMetrics { height: 8, width: 8 };
    for row in 0..8u8 {
        assert_eq!(pack_glyph_row(&image, fm, 0, 0, row), vec![0xFF]);
    }
}

#[test]
fn all_unset_glyph_packs_to_zero_rows() {
    let image = InputPNGImage { width: 8, height: 8, image_data: vec![0x00; 8] };
    let fm = FontMetrics { height: 8, width: 8 };
    for row in 0..8u8 {
        assert_eq!(pack_glyph_row(&image, fm, 0, 0, row), vec![0x00]);
    }
}

#[test]
fn wide_row_packs_into_partial_final_byte() {
    // a single 12x1 glyph row with pixels 1,1,0,0,1,1,0,1,1,1,0,0: the first
    // eight pack to 0b11001101 and the remaining four fill the high bits of
    // the final byte, unused low bits clear
    let image = InputPNGImage { width: 12, height: 1, image_data: vec![0b10110011, 0b00000011] };
    let fm = FontMetrics { height: 1, width: 12 };
    assert_eq!(pack_glyph_row(&image, fm, 0, 0, 0), vec![0b11001101, 0b11000000]);
    assert_eq!(pack_glyph_row(&image, fm, 0, 0, 0), vec![0xCD, 0xC0]);
}

#[test]
fn narrow_rows_pack_to_one_byte() {
    for w in 1..=8u8 {
        let image = InputPNGImage { width: 8, height: 8, image_data: vec![0xFF; 8] };
        let fm = FontMetrics { height: 8, width: w };
        assert_eq!(pack_glyph_row(&image, fm, 0, 0, 0).len(), 1);
    }
}

#[test]
fn wide_rows_pack_to_ceil_div_bytes() {
    let image = InputPNGImage { width: 64, height: 1, image_data: vec![0xFF; 8] };
    for (w, expected) in [(9u8, 2usize), (16, 2), (17, 3), (24, 3), (25, 4)] {
        let fm = FontMetrics { height: 1, width: w };
        assert_eq!(pack_glyph_row(&image, fm, 0, 0, 0).len(), expected);
    }
}

#[test]
fn c_dialect_single_glyph_output() {
    let image = InputPNGImage { width: 8, height: 8, image_data: vec![0xFF; 8] };
    let c = converter(Format::C, false, false);
    let ts = String::from("01/02/2034 at 05:06:07");
    let out = c.convert(&image, &ts);
    let expected = format!(
        "//\n// Font Data\n// Created: {}\n//\n\n\nconst unsigned char font[] = {{\n\t{} // Character 0x00 (0)\n}};\n\n\n",
        ts,
        "0xFF,".repeat(8),
    );
    assert_eq!(out, expected);
}

#[test]
fn truncating_grid_division_yields_two_glyphs() {
    // 17x8 pixels with 8x8 cells: two whole glyphs per row, the 17th pixel
    // column ignored
    let image = InputPNGImage { width: 17, height: 8, image_data: vec![0xFF; 24] };
    let c = converter(Format::C, false, false);
    let ts = String::from("01/02/2034 at 05:06:07");
    let out = c.convert(&image, &ts);
    assert_eq!(out.matches(" // Character").count(), 2);
    assert!(out.contains(" // Character 0x00 (0)"));
    assert!(out.contains(" // Character 0x01 (1)"));
    assert!(!out.contains(" // Character 0x02"));
}

#[test]
fn python_bytes_output_shape() {
    let image = InputPNGImage { width: 8, height: 1, image_data: vec![0b00000001] };
    let c = FixedWidthFontConverter {
        font_metrics: FontMetrics { height: 1, width: 8 },
        output_format: Format::PythonBytes,
        source_code_options: SourceCodeOptions {
            bit_numbering: BitNumbering::LSB,
            invert_bits: false,
        },
    };
    let ts = String::from("now");
    let out = c.convert(&image, &ts);
    let expected = "#\n# Font Data\n# Created: now\n#\n\n\nfont = b'' \\\n\t'\\x80' \\\n\n\n";
    assert_eq!(out, expected);
}

#[test]
fn arduino_output_declares_progmem_array() {
    let image = InputPNGImage { width: 8, height: 1, image_data: vec![0x00] };
    let c = FixedWidthFontConverter {
        font_metrics: FontMetrics { height: 1, width: 8 },
        output_format: Format::Arduino,
        source_code_options: SourceCodeOptions {
            bit_numbering: BitNumbering::LSB,
            invert_bits: false,
        },
    };
    let out = c.convert(&image, &String::from("t"));
    assert!(out.contains("#include <Arduino.h>\n"));
    assert!(out.contains("\n\nconst uint8_t font[] PROGMEM = {\n"));
    assert!(out.contains("0x00,"));
    assert!(out.ends_with("};\n\n\n"));
}

#[test]
fn image_smaller_than_one_cell_yields_no_glyphs() {
    let image = InputPNGImage { width: 4, height: 4, image_data: vec![0xFF; 4] };
    let c = converter(Format::C, false, false);
    let ts = String::from("t");
    let out = c.convert(&image, &ts);
    let expected = format!(
        "//\n// Font Data\n// Created: {}\n//\n\n\nconst unsigned char font[] = {{\n}};\n\n\n",
        ts,
    );
    assert_eq!(out, expected);
}

#[test]
fn msb_output_reverses_each_byte() {
    // only the first pixel of the row is set: raw packing gives 0x80, the
    // MSB reorder turns it into 0x01
    let image = InputPNGImage { width: 8, height: 1, image_data: vec![0b00000001] };
    let c = FixedWidthFontConverter {
        font_metrics: FontMetrics { height: 1, width: 8 },
        output_format: Format::C,
        source_code_options: SourceCodeOptions {
            bit_numbering: BitNumbering::MSB,
            invert_bits: false,
        },
    };
    let out = c.convert(&image, &String::from("t"));
    assert!(out.contains("\t0x01, // Character 0x00 (0)\n"));
}

#[test]
fn inverted_output_complements_bytes() {
    let image = InputPNGImage { width: 8, height: 1, image_data: vec![0xFF] };
    let c = FixedWidthFontConverter {
        font_metrics: FontMetrics { height: 1, width: 8 },
        output_format: Format::C,
        source_code_options: SourceCodeOptions {
            bit_numbering: BitNumbering::LSB,
            invert_bits: true,
        },
    };
    let out = c.convert(&image, &String::from("t"));
    assert!(out.contains("0x00,"));
    assert!(!out.contains("0xFF,"));
}
