//! The format emitter: renders the structural tokens of each output dialect
//! around the packed bytes. Stateless; a pure mapping from token to text.
use crate::config::Format;
use crate::numfmt::{append_byte_hex_lower, append_byte_hex_upper, spec_byte_hex_lower,
    spec_byte_hex_upper};
use vstd::prelude::*;

verus! {

/// The token set that every output dialect renders. Each exec method returns
/// exactly the text its spec function describes.
pub trait ByteWriter {
    /// The file header, carrying the creation timestamp.
    spec fn spec_begin(&self, timestamp: Seq<char>) -> Seq<char>;

    /// The opening declaration of the byte container named `name`.
    spec fn spec_begin_array(&self, name: Seq<char>) -> Seq<char>;

    /// The prefix emitted before each glyph's row of bytes.
    spec fn spec_begin_array_row(&self) -> Seq<char>;

    /// One literal token for one packed byte.
    spec fn spec_byte(&self, byte: u8) -> Seq<char>;

    /// The trailing annotation identifying which glyph a row encodes.
    spec fn spec_comment(&self, comment: Seq<char>) -> Seq<char>;

    /// The row terminator.
    spec fn spec_line_break(&self) -> Seq<char>;

    /// The closing syntax of the container.
    spec fn spec_end_array(&self) -> Seq<char>;

    /// The trailing footer.
    spec fn spec_end(&self) -> Seq<char>;

    fn begin(&self, timestamp: &String) -> (r: String)
        ensures
            r@ == self.spec_begin(timestamp@),
    ;

    fn begin_array(&self, name: &str) -> (r: String)
        ensures
            r@ == self.spec_begin_array(name@),
    ;

    fn begin_array_row(&self) -> (r: String)
        ensures
            r@ == self.spec_begin_array_row(),
    ;

    fn byte(&self, byte: u8) -> (r: String)
        ensures
            r@ == self.spec_byte(byte),
    ;

    fn comment(&self, comment: &String) -> (r: String)
        ensures
            r@ == self.spec_comment(comment@),
    ;

    fn line_break(&self) -> (r: String)
        ensures
            r@ == self.spec_line_break(),
    ;

    fn end_array(&self) -> (r: String)
        ensures
            r@ == self.spec_end_array(),
    ;

    fn end(&self) -> (r: String)
        ensures
            r@ == self.spec_end(),
    ;
}

impl ByteWriter for Format {
    open spec fn spec_begin(&self, timestamp: Seq<char>) -> Seq<char> {
        match self {
            Format::C => "//\n// Font Data\n// Created: "@ + timestamp + "\n//\n"@,
            Format::Arduino => "//\n// Font Data\n// Created: "@ + timestamp
                + "\n//\n\n#include <Arduino.h>\n"@,
            _ => "#\n# Font Data\n# Created: "@ + timestamp + "\n#\n"@,
        }
    }

    open spec fn spec_begin_array(&self, name: Seq<char>) -> Seq<char> {
        match self {
            Format::C => "\n\nconst unsigned char "@ + name + "[] = {\n"@,
            Format::Arduino => "\n\nconst uint8_t "@ + name + "[] PROGMEM = {\n"@,
            Format::PythonList => "\n\n"@ + name + " = [\n"@,
            Format::PythonBytes => "\n\n"@ + name + " = b'' \\\n"@,
        }
    }

    open spec fn spec_begin_array_row(&self) -> Seq<char> {
        match self {
            Format::PythonBytes => "\t'"@,
            _ => "\t"@,
        }
    }

    open spec fn spec_byte(&self, byte: u8) -> Seq<char> {
        match self {
            Format::C | Format::Arduino => "0x"@ + spec_byte_hex_upper(byte) + ","@,
            Format::PythonList => "0x"@ + spec_byte_hex_lower(byte) + ","@,
            Format::PythonBytes => "\\x"@ + spec_byte_hex_lower(byte),
        }
    }

    open spec fn spec_comment(&self, comment: Seq<char>) -> Seq<char> {
        match self {
            Format::C | Format::Arduino => " // "@ + comment,
            Format::PythonList => " # "@ + comment,
            Format::PythonBytes => "' \\"@,
        }
    }

    open spec fn spec_line_break(&self) -> Seq<char> {
        "\n"@
    }

    open spec fn spec_end_array(&self) -> Seq<char> {
        match self {
            Format::C | Format::Arduino => "};\n"@,
            Format::PythonList => "]\n"@,
            Format::PythonBytes => ""@,
        }
    }

    open spec fn spec_end(&self) -> Seq<char> {
        "\n\n"@
    }

    fn begin(&self, timestamp: &String) -> (r: String) {
        match self {
            Format::C => {
                let mut s = String::from_str("//\n// Font Data\n// Created: ");
                s.append(timestamp.as_str());
                s.append("\n//\n");
                s
            },
            Format::Arduino => {
                let mut s = String::from_str("//\n// Font Data\n// Created: ");
                s.append(timestamp.as_str());
                s.append("\n//\n\n#include <Arduino.h>\n");
                s
            },
            _ => {
                let mut s = String::from_str("#\n# Font Data\n# Created: ");
                s.append(timestamp.as_str());
                s.append("\n#\n");
                s
            },
        }
    }

    fn begin_array(&self, name: &str) -> (r: String) {
        match self {
            Format::C => {
                let mut s = String::from_str("\n\nconst unsigned char ");
                s.append(name);
                s.append("[] = {\n");
                s
            },
            Format::Arduino => {
                let mut s = String::from_str("\n\nconst uint8_t ");
                s.append(name);
                s.append("[] PROGMEM = {\n");
                s
            },
            Format::PythonList => {
                let mut s = String::from_str("\n\n");
                s.append(name);
                s.append(" = [\n");
                s
            },
            Format::PythonBytes => {
                let mut s = String::from_str("\n\n");
                s.append(name);
                s.append(" = b'' \\\n");
                s
            },
        }
    }

    fn begin_array_row(&self) -> (r: String) {
        match self {
            Format::PythonBytes => String::from_str("\t'"),
            _ => String::from_str("\t"),
        }
    }

    fn byte(&self, byte: u8) -> (r: String) {
        match self {
            Format::C | Format::Arduino => {
                let mut s = String::from_str("0x");
                append_byte_hex_upper(&mut s, byte);
                s.append(",");
                s
            },
            Format::PythonList => {
                let mut s = String::from_str("0x");
                append_byte_hex_lower(&mut s, byte);
                s.append(",");
                s
            },
            Format::PythonBytes => {
                let mut s = String::from_str("\\x");
                append_byte_hex_lower(&mut s, byte);
                s
            },
        }
    }

    fn comment(&self, comment: &String) -> (r: String) {
        match self {
            Format::C | Format::Arduino => {
                let mut s = String::from_str(" // ");
                s.append(comment.as_str());
                s
            },
            Format::PythonList => {
                let mut s = String::from_str(" # ");
                s.append(comment.as_str());
                s
            },
            Format::PythonBytes => String::from_str("' \\"),
        }
    }

    fn line_break(&self) -> (r: String) {
        String::from_str("\n")
    }

    fn end_array(&self) -> (r: String) {
        match self {
            Format::C | Format::Arduino => String::from_str("};\n"),
            Format::PythonList => String::from_str("]\n"),
            Format::PythonBytes => String::from_str(""),
        }
    }

    fn end(&self) -> (r: String) {
        String::from_str("\n\n")
    }
}

} // verus!
