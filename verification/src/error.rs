//! The errors of the library and the messages that users see for them.

use vstd::prelude::*;
use crate::text::{decimal, push_decimal};

verus! {

/// Why a QR request could not be served.
#[derive(Debug)]
pub enum WifiQrError {
    /// Wi-Fi mode was asked for without an SSID.
    MissingSsid,
    /// A protected network was asked for without a password.
    MissingPassword,
    /// The output path has no extension that names a format.
    UnknownOutputFormat,
    /// The named format writes a file, but no output path was given.
    OutputRequired(String),
    /// Terminal text was asked for together with an output file.
    AsciiOutputFile,
    /// The dark-module text is empty.
    EmptyAsciiChar,
    /// The dark-module text holds a control character.
    ControlAsciiChar,
    /// The dark-module text holds only whitespace.
    InvisibleAsciiChar,
    /// The dark-module text takes no columns on a terminal.
    ZeroWidthAsciiChar,
    /// The payload cannot be encoded as a QR code.
    QrGeneration,
    /// The bordered matrix does not fit in memory sizes.
    DimensionsOverflow,
    /// The canvas size is zero.
    ZeroCanvasSize,
    /// The matrix is wider than a PNG canvas can be.
    PngDimensionsTooLarge,
    /// The canvas has fewer pixels per side than the matrix has modules.
    CanvasTooSmall { size: u32, modules: u32 },
}

impl WifiQrError {
    /// The message shown for this error.
    pub open spec fn message_text(self) -> Seq<char> {
        match self {
            WifiQrError::MissingSsid => "--ssid is required unless using the raw subcommand"@,
            WifiQrError::MissingPassword => "--password is required unless --security nopass is used"@,
            WifiQrError::UnknownOutputFormat => "could not infer output format from extension; use --format png|svg|ascii"@,
            WifiQrError::OutputRequired(format) => "--output is required for "@ + format@ + " output"@,
            WifiQrError::AsciiOutputFile => "terminal text output is printed to stdout; omit --output"@,
            WifiQrError::EmptyAsciiChar => "--ascii-char must not be empty"@,
            WifiQrError::ControlAsciiChar => "--ascii-char must not contain control characters"@,
            WifiQrError::InvisibleAsciiChar => "--ascii-char must contain a visible character"@,
            WifiQrError::ZeroWidthAsciiChar => "--ascii-char must have visible width"@,
            WifiQrError::QrGeneration => "failed to generate QR code"@,
            WifiQrError::DimensionsOverflow => "QR dimensions overflowed"@,
            WifiQrError::ZeroCanvasSize => "--size must be greater than zero"@,
            WifiQrError::PngDimensionsTooLarge => "QR dimensions exceed PNG limits"@,
            WifiQrError::CanvasTooSmall { size, modules } => "--size "@ + decimal(size as nat)
                + " is too small for a QR code with "@ + decimal(modules as nat) + " modules"@,
        }
    }

    /// The message shown for this error.
    pub fn message(&self) -> (r: String)
        ensures
            r@ == self.message_text(),
    {
        match self {
            WifiQrError::MissingSsid => "--ssid is required unless using the raw subcommand".to_owned(),
            WifiQrError::MissingPassword => "--password is required unless --security nopass is used".to_owned(),
            WifiQrError::UnknownOutputFormat => "could not infer output format from extension; use --format png|svg|ascii".to_owned(),
            WifiQrError::OutputRequired(format) => {
                let mut r = "--output is required for ".to_owned();
                r.append(format.as_str());
                r.append(" output");
                r
            },
            WifiQrError::AsciiOutputFile => "terminal text output is printed to stdout; omit --output".to_owned(),
            WifiQrError::EmptyAsciiChar => "--ascii-char must not be empty".to_owned(),
            WifiQrError::ControlAsciiChar => "--ascii-char must not contain control characters".to_owned(),
            WifiQrError::InvisibleAsciiChar => "--ascii-char must contain a visible character".to_owned(),
            WifiQrError::ZeroWidthAsciiChar => "--ascii-char must have visible width".to_owned(),
            WifiQrError::QrGeneration => "failed to generate QR code".to_owned(),
            WifiQrError::DimensionsOverflow => "QR dimensions overflowed".to_owned(),
            WifiQrError::ZeroCanvasSize => "--size must be greater than zero".to_owned(),
            WifiQrError::PngDimensionsTooLarge => "QR dimensions exceed PNG limits".to_owned(),
            WifiQrError::CanvasTooSmall { size, modules } => {
                let mut r = "--size ".to_owned();
                push_decimal(&mut r, *size as u64);
                r.append(" is too small for a QR code with ");
                push_decimal(&mut r, *modules as u64);
                r.append(" modules");
                r
            },
        }
    }
}

} // verus!
