//! Run configuration: font cell dimensions, output dialect and byte transform
//! options.
use vstd::prelude::*;

verus! {

/// The textual output dialect that the emitted byte array is rendered in.
#[derive(Clone, Copy, Debug, PartialEq, Eq, Structural)]
pub enum Format {
    C,
    Arduino,
    PythonList,
    PythonBytes,
}

/// Whether the first pixel of a packed group ends up in the most- or
/// least-significant bit position after the byte transform.
#[derive(Clone, Copy, Debug, PartialEq, Eq, Structural)]
pub enum BitNumbering {
    MSB,
    LSB,
}

/// Per-run byte transform options, applied uniformly to every packed byte.
#[derive(Clone, Copy, Debug, PartialEq, Eq, Structural)]
pub struct SourceCodeOptions {
    pub bit_numbering: BitNumbering,
    pub invert_bits: bool,
}

/// Pixel dimensions of one glyph cell. Both must be positive for a conversion
/// to be meaningful.
#[derive(Clone, Copy, Debug, PartialEq, Eq, Structural)]
pub struct FontMetrics {
    pub height: u8,
    pub width: u8,
}

impl FontMetrics {
    /// Zero-sized glyph cells are invalid and are rejected before any packing
    /// begins.
    pub open spec fn valid(self) -> bool {
        self.height > 0 && self.width > 0
    }

    pub fn is_valid(&self) -> (r: bool)
        ensures
            r == self.valid(),
    {
        self.height > 0 && self.width > 0
    }
}

/// The full configuration of one run, as handed in from the outside.
#[derive(Debug)]
pub struct Config {
    /// Font height in pixels.
    pub font_height: u8,
    /// Font width in pixels.
    pub font_width: u8,
    /// Output source code format.
    pub format: Format,
    /// Path to the output file (stdout if not present).
    pub output_file_path: Option<String>,
    /// Path to the input image file.
    pub input_file_path: String,
    /// Store bytes in MSB mode (default is LSB).
    pub msb: bool,
    /// Invert bits in output.
    pub invert_bits: bool,
}

impl Config {
    pub fn font_metrics(&self) -> (r: FontMetrics)
        ensures
            r.height == self.font_height,
            r.width == self.font_width,
    {
        FontMetrics { height: self.font_height, width: self.font_width }
    }

    pub fn source_code_options(&self) -> (r: SourceCodeOptions)
        ensures
            r.bit_numbering == self.spec_bit_numbering(),
            r.invert_bits == self.invert_bits,
    {
        SourceCodeOptions { bit_numbering: self.bit_numbering(), invert_bits: self.invert_bits }
    }

    /// The MSB flag selects the bit numbering; LSB is the default.
    pub open spec fn spec_bit_numbering(&self) -> BitNumbering {
        if self.msb {
            BitNumbering::MSB
        } else {
            BitNumbering::LSB
        }
    }

    fn bit_numbering(&self) -> (r: BitNumbering)
        ensures
            r == self.spec_bit_numbering(),
    {
        if self.msb {
            BitNumbering::MSB
        } else {
            BitNumbering::LSB
        }
    }
}

} // verus!
