//! What the user asked for: the payload (Wi-Fi network or raw text) and
//! where and how the code is written.

use vstd::prelude::*;
use crate::error::WifiQrError;
use crate::matrix::ErrorCorrection;
use crate::text::{ascii_lower, same_text, to_ascii_lowercase};
use crate::wifi::{build_wifi_payload, lemma_hidden_adds_field, wifi_payload, Security};

verus! {

/// The kind of output that is written.
#[derive(Clone, Copy, Debug, PartialEq, Eq, Structural)]
pub enum OutputFormat {
    Png,
    Svg,
    Ascii,
}

/// How and where the code is written.
pub struct OutputOptions {
    /// Output file path for PNG or SVG.
    pub output: Option<String>,
    /// Output format; inferred from the output path when absent.
    pub format: Option<OutputFormat>,
    /// PNG/SVG canvas size in pixels.
    pub size: u32,
    /// Quiet-zone border in modules.
    pub border: usize,
    /// QR error correction level.
    pub error_correction: ErrorCorrection,
    /// Text used for dark modules in terminal output.
    pub ascii_char: String,
}

/// Where the code goes.
#[derive(Debug)]
pub enum OutputTarget<'a> {
    Png(&'a str),
    Svg(&'a str),
    Ascii,
}

/// The characters of an optional text.
pub open spec fn optional_text(s: Option<String>) -> Option<Seq<char>> {
    match s {
        Some(t) => Some(t@),
        None => None,
    }
}

/// The extension of a file path, as `std::path::Path::extension` gives
/// it: the part of the last file name after its final `.`.
pub uninterp spec fn path_extension(path: Seq<char>) -> Option<Seq<char>>;

/// Calls `std::path::Path::extension` on `path`. Claimed of it: the
/// outcome is `path_extension(path)`; the extension of a path given as
/// text is always text.
#[verifier::external_body]
fn output_extension(path: &str) -> (r: Option<String>)
    ensures
        match r {
            Some(e) => path_extension(path@) == Some(e@),
            None => path_extension(path@) is None,
        },
{
    std::path::Path::new(path).extension().and_then(|e| e.to_str()).map(|e| e.to_owned())
}

/// The format that a file extension names, in any letter case.
pub open spec fn extension_format(extension: Seq<char>) -> Option<OutputFormat> {
    if ascii_lower(extension) == "png"@ {
        Some(OutputFormat::Png)
    } else if ascii_lower(extension) == "svg"@ {
        Some(OutputFormat::Svg)
    } else {
        None
    }
}

/// The format that an output path names by its extension.
pub open spec fn format_of_path(path: Seq<char>) -> Option<OutputFormat> {
    match path_extension(path) {
        Some(e) => extension_format(e),
        None => None,
    }
}

/// The format that a file extension names: `png` or `svg`, in any letter
/// case.
pub fn format_of_extension(extension: &str) -> (r: Option<OutputFormat>)
    ensures
        r == extension_format(extension@),
{
    let lower = to_ascii_lowercase(extension);
    if same_text(lower.as_str(), "png") {
        Some(OutputFormat::Png)
    } else if same_text(lower.as_str(), "svg") {
        Some(OutputFormat::Svg)
    } else {
        None
    }
}

/// The format that is written: the one given; else, without an output
/// path, terminal text; else the one the path names.
pub open spec fn chosen_format(format: Option<OutputFormat>, output: Option<Seq<char>>) -> Option<OutputFormat> {
    match format {
        Some(f) => Some(f),
        None => match output {
            None => Some(OutputFormat::Ascii),
            Some(path) => format_of_path(path),
        },
    }
}

/// Whether `r` is the output path, or, without one, the error that names
/// `format`.
pub open spec fn path_outcome(output: Option<String>, format: Seq<char>, r: Result<&str, WifiQrError>) -> bool {
    match output {
        Some(p) => r matches Ok(q) && q@ == p@,
        None => r matches Err(WifiQrError::OutputRequired(f)) && f@ == format,
    }
}

/// Whether `r` is where the code goes for these options.
pub open spec fn target_outcome(options: OutputOptions, r: Result<OutputTarget, WifiQrError>) -> bool {
    match chosen_format(options.format, optional_text(options.output)) {
        None => r matches Err(WifiQrError::UnknownOutputFormat),
        Some(OutputFormat::Png) => match options.output {
            Some(p) => r matches Ok(OutputTarget::Png(q)) && q@ == p@,
            None => r matches Err(WifiQrError::OutputRequired(f)) && f@ == "PNG"@,
        },
        Some(OutputFormat::Svg) => match options.output {
            Some(p) => r matches Ok(OutputTarget::Svg(q)) && q@ == p@,
            None => r matches Err(WifiQrError::OutputRequired(f)) && f@ == "SVG"@,
        },
        Some(OutputFormat::Ascii) => match options.output {
            Some(_) => r matches Err(WifiQrError::AsciiOutputFile),
            None => r matches Ok(OutputTarget::Ascii),
        },
    }
}

impl OutputOptions {
    /// Where the code goes: a PNG or SVG file, or the terminal.
    pub fn target(&self) -> (r: Result<OutputTarget<'_>, WifiQrError>)
        ensures
            target_outcome(*self, r),
    {
        match self.format()? {
            OutputFormat::Png => Ok(OutputTarget::Png(self.required_output_path("PNG")?)),
            OutputFormat::Svg => Ok(OutputTarget::Svg(self.required_output_path("SVG")?)),
            OutputFormat::Ascii => {
                if self.output.is_some() {
                    return Err(WifiQrError::AsciiOutputFile);
                }
                Ok(OutputTarget::Ascii)
            },
        }
    }

    /// The format that is written: the one given, else terminal text
    /// without an output path, else the one the path's extension names.
    pub fn format(&self) -> (r: Result<OutputFormat, WifiQrError>)
        ensures
            match chosen_format(self.format, optional_text(self.output)) {
                Some(f) => r == Ok::<OutputFormat, WifiQrError>(f),
                None => r matches Err(WifiQrError::UnknownOutputFormat),
            },
    {
        if let Some(format) = self.format {
            return Ok(format);
        }
        let path = match &self.output {
            Some(path) => path,
            None => return Ok(OutputFormat::Ascii),
        };
        match output_extension(path.as_str()) {
            Some(extension) => match format_of_extension(extension.as_str()) {
                Some(format) => Ok(format),
                None => Err(WifiQrError::UnknownOutputFormat),
            },
            None => Err(WifiQrError::UnknownOutputFormat),
        }
    }

    /// The output path, which the named format needs.
    pub fn required_output_path(&self, format: &str) -> (r: Result<&str, WifiQrError>)
        ensures
            path_outcome(self.output, format@, r),
    {
        match &self.output {
            Some(path) => Ok(path.as_str()),
            None => Err(WifiQrError::OutputRequired(format.to_owned())),
        }
    }
}

/// A subcommand.
pub enum Command {
    /// Encode arbitrary text instead of a Wi-Fi payload.
    Raw { text: String, output: OutputOptions },
}

/// The whole request: Wi-Fi options, or a raw-text subcommand with its
/// own output options.
pub struct Cli {
    pub command: Option<Command>,
    pub output: OutputOptions,
    pub ssid: Option<String>,
    pub password: Option<String>,
    pub security: Security,
    pub hidden: bool,
}

/// A payload to encode, with the options of its output.
pub struct QrRequest<'a> {
    pub payload: String,
    pub output: &'a OutputOptions,
}

/// Whether `r` is what the request asks to encode: the raw text with the
/// subcommand's options, or the Wi-Fi payload with the main options.
pub open spec fn request_outcome(cli: Cli, r: Result<QrRequest, WifiQrError>) -> bool {
    match cli.command {
        Some(Command::Raw { text, output }) => r matches Ok(q) && q.payload@ == text@ && *q.output == output,
        None => match cli.ssid {
            None => r matches Err(WifiQrError::MissingSsid),
            Some(ssid) => match wifi_payload(ssid@, optional_text(cli.password), cli.security, cli.hidden) {
                Some(payload) => r matches Ok(q) && q.payload@ == payload && *q.output == cli.output,
                None => r matches Err(WifiQrError::MissingPassword),
            },
        },
    }
}

impl Cli {
    /// The payload to encode and the options of its output.
    pub fn request(&self) -> (r: Result<QrRequest<'_>, WifiQrError>)
        ensures
            request_outcome(*self, r),
    {
        match &self.command {
            Some(Command::Raw { text, output }) => Ok(QrRequest { payload: text.clone(), output }),
            None => {
                let ssid = match &self.ssid {
                    Some(ssid) => ssid,
                    None => return Err(WifiQrError::MissingSsid),
                };
                let password = match &self.password {
                    Some(p) => Some(p.as_str()),
                    None => None,
                };
                let payload = build_wifi_payload(ssid.as_str(), password, self.security, self.hidden)?;
                Ok(QrRequest { payload, output: &self.output })
            },
        }
    }
}

/// In Wi-Fi mode the payload follows every setting of the command line:
/// two requests that differ only in `--hidden` give payloads that differ
/// only in the field `H:true;` before the final `;`, and the network's
/// payload is built exactly when the hidden one is.
pub proof fn lemma_request_follows_hidden(
    plain: Cli,
    hidden: Cli,
    plain_request: Result<QrRequest, WifiQrError>,
    hidden_request: Result<QrRequest, WifiQrError>,
)
    requires
        plain.command is None,
        hidden.command is None,
        plain.ssid == hidden.ssid,
        plain.password == hidden.password,
        plain.security == hidden.security,
        !plain.hidden,
        hidden.hidden,
        request_outcome(plain, plain_request),
        request_outcome(hidden, hidden_request),
    ensures
        plain_request is Ok <==> hidden_request is Ok,
        plain_request matches Ok(p) ==> hidden_request matches Ok(h)
            && h.payload@ == p.payload@.drop_last() + "H:true;;"@,
{
    if let Some(ssid) = plain.ssid {
        lemma_hidden_adds_field(ssid@, optional_text(plain.password), plain.security);
    }
}

/// An extension names the same format in any letter case.
pub proof fn lemma_extension_case_insensitive(extension: Seq<char>)
    ensures
        extension_format(extension) == extension_format(ascii_lower(extension)),
{
    crate::text::lemma_ascii_lower_idempotent(extension);
}

/// `PNG`, `png`, `SVG` and `svg` name their formats; other extensions such
/// as `txt` name none.
pub proof fn lemma_known_extensions()
    ensures
        extension_format("png"@) == Some(OutputFormat::Png),
        extension_format("PNG"@) == Some(OutputFormat::Png),
        extension_format("svg"@) == Some(OutputFormat::Svg),
        extension_format("SVG"@) == Some(OutputFormat::Svg),
        extension_format("txt"@) is None,
{
    reveal_strlit("png");
    reveal_strlit("PNG");
    reveal_strlit("svg");
    reveal_strlit("SVG");
    reveal_strlit("txt");
    assert(ascii_lower("png"@) =~= "png"@);
    assert(ascii_lower("PNG"@) =~= "png"@);
    assert(ascii_lower("svg"@) =~= "svg"@);
    assert(ascii_lower("SVG"@) =~= "svg"@);
    assert(ascii_lower("txt"@) =~= "txt"@);
    assert("txt"@[0] != "png"@[0]);
    assert("txt"@[0] != "svg"@[0]);
}

} // verus!
