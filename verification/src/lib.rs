//! Building Wi-Fi QR payloads and rendering QR module grids as terminal
//! text, SVG documents and PNG canvases.
//!
//! A request ([`Cli`]) names either a Wi-Fi network or raw text; the payload
//! is encoded into a bordered [`QrMatrix`], which is then drawn by
//! [`render_ascii`], [`render_svg`] or [`render_png`] as the output options
//! ask ([`OutputOptions::target`]).

pub mod text;
pub mod error;
pub mod wifi;
pub mod matrix;
pub mod options;
pub mod ascii;
pub mod svg;
pub mod version;
pub mod png;

pub use ascii::{render_ascii, AsciiStyle, DEFAULT_ASCII_CHAR};
pub use error::WifiQrError;
pub use matrix::{ErrorCorrection, QrMatrix};
pub use options::{Cli, Command, OutputFormat, OutputOptions, OutputTarget, QrRequest};
pub use png::{render_png, PngCanvas};
pub use svg::{ensure_canvas_size, render_svg};
pub use version::{long_version, render, VersionInfo};
pub use wifi::{build_wifi_payload, escape_wifi_field, Security};
