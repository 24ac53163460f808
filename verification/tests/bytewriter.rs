//! Tests of the format emitter: each dialect's structural tokens.
use fontpack::bytewriter::ByteWriter;
use fontpack::config::{BitNumbering, Config, Format};

#[test]
fn begin_tokens() {
    let ts = String::from("31/12/1999 at 23:59:59");
    assert_eq!(
        Format::C.begin(&ts),
        "//\n// Font Data\n// Created: 31/12/1999 at 23:59:59\n//\n",
    );
    assert_eq!(
        Format::Arduino.begin(&ts),
        "//\n// Font Data\n// Created: 31/12/1999 at 23:59:59\n//\n\n#include <Arduino.h>\n",
    );
    assert_eq!(
        Format::PythonList.begin(&ts),
        "#\n# Font Data\n# Created: 31/12/1999 at 23:59:59\n#\n",
    );
    assert_eq!(
        Format::PythonBytes.begin(&ts),
        "#\n# Font Data\n# Created: 31/12/1999 at 23:59:59\n#\n",
    );
}

#[test]
fn begin_array_tokens() {
    assert_eq!(Format::C.begin_array("font"), "\n\nconst unsigned char font[] = {\n");
    assert_eq!(Format::Arduino.begin_array("font"), "\n\nconst uint8_t font[] PROGMEM = {\n");
    assert_eq!(Format::PythonList.begin_array("font"), "\n\nfont = [\n");
    assert_eq!(Format::PythonBytes.begin_array("font"), "\n\nfont = b'' \\\n");
}

#[test]
fn begin_array_row_tokens() {
    assert_eq!(Format::C.begin_array_row(), "\t");
    assert_eq!(Format::Arduino.begin_array_row(), "\t");
    assert_eq!(Format::PythonList.begin_array_row(), "\t");
    assert_eq!(Format::PythonBytes.begin_array_row(), "\t'");
}

#[test]
fn byte_tokens() {
    assert_eq!(Format::C.byte(0xAB), "0xAB,");
    assert_eq!(Format::Arduino.byte(0xAB), "0xAB,");
    assert_eq!(Format::PythonList.byte(0xAB), "0xab,");
    assert_eq!(Format::PythonBytes.byte(0xAB), "\\xab");
    assert_eq!(Format::C.byte(0x05), "0x05,");
    assert_eq!(Format::PythonList.byte(0x00), "0x00,");
    assert_eq!(Format::C.byte(0xFF), "0xFF,");
}

#[test]
fn comment_tokens() {
    let text = String::from("Character 0x0A (10)");
    assert_eq!(Format::C.comment(&text), " // Character 0x0A (10)");
    assert_eq!(Format::Arduino.comment(&text), " // Character 0x0A (10)");
    assert_eq!(Format::PythonList.comment(&text), " # Character 0x0A (10)");
    assert_eq!(Format::PythonBytes.comment(&text), "' \\");
}

#[test]
fn closing_tokens() {
    assert_eq!(Format::C.line_break(), "\n");
    assert_eq!(Format::C.end_array(), "};\n");
    assert_eq!(Format::Arduino.end_array(), "};\n");
    assert_eq!(Format::PythonList.end_array(), "]\n");
    assert_eq!(Format::PythonBytes.end_array(), "");
    assert_eq!(Format::C.end(), "\n\n");
}

#[test]
fn config_accessors() {
    let config = Config {
        font_height: 14,
        font_width: 10,
        format: Format::PythonList,
        output_file_path: None,
        input_file_path: String::from("font.png"),
        msb: true,
        invert_bits: true,
    };
    let fm = config.font_metrics();
    assert_eq!(fm.height, 14);
    assert_eq!(fm.width, 10);
    let opts = config.source_code_options();
    assert_eq!(opts.bit_numbering, BitNumbering::MSB);
    assert!(opts.invert_bits);

    let config = Config {
        font_height: 8,
        font_width: 8,
        format: Format::C,
        output_file_path: Some(String::from("out.c")),
        input_file_path: String::from("font.png"),
        msb: false,
        invert_bits: false,
    };
    let opts = config.source_code_options();
    assert_eq!(opts.bit_numbering, BitNumbering::LSB);
    assert!(!opts.invert_bits);
}
