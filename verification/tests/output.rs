use wifiqr::error::WifiQrError;
use wifiqr::matrix::ErrorCorrection;
use wifiqr::options::{format_of_extension, Cli, Command, OutputFormat, OutputOptions, OutputTarget};
use wifiqr::wifi::Security;
use wifiqr::ascii::DEFAULT_ASCII_CHAR;

fn output_options(output: Option<&str>, format: Option<OutputFormat>) -> OutputOptions {
    OutputOptions {
        output: output.map(|p| p.to_string()),
        format,
        size: 1024,
        border: 4,
        error_correction: ErrorCorrection::H,
        ascii_char: DEFAULT_ASCII_CHAR.to_string(),
    }
}

#[test]
fn infers_format_from_output_extension() {
    let options = output_options(Some("qr.svg"), None);

    assert!(matches!(
        options.target().unwrap(),
        OutputTarget::Svg(path) if path == "qr.svg"
    ));
}

#[test]
fn defaults_to_ascii_without_output() {
    let options = output_options(None, None);

    assert!(matches!(options.target().unwrap(), OutputTarget::Ascii));
}

#[test]
fn rejects_ascii_output_file() {
    let options = output_options(Some("qr.txt"), Some(OutputFormat::Ascii));
    let error = options.target().unwrap_err().message();

    assert_eq!(
        error,
        "terminal text output is printed to stdout; omit --output"
    );
}

#[test]
fn infers_png_from_upper_case_extension() {
    let options = output_options(Some("out/CODE.PNG"), None);
    assert!(matches!(options.target().unwrap(), OutputTarget::Png(path) if path == "out/CODE.PNG"));
}

#[test]
fn rejects_unknown_extension() {
    let options = output_options(Some("qr.txt"), None);
    let error = options.target().unwrap_err();
    assert!(matches!(error, WifiQrError::UnknownOutputFormat));
    assert_eq!(
        error.message(),
        "could not infer output format from extension; use --format png|svg|ascii"
    );
    let options = output_options(Some("README"), None);
    assert!(matches!(options.format(), Err(WifiQrError::UnknownOutputFormat)));
}

#[test]
fn explicit_format_wins_over_extension() {
    let options = output_options(Some("qr.svg"), Some(OutputFormat::Png));
    assert!(matches!(options.target().unwrap(), OutputTarget::Png(path) if path == "qr.svg"));
}

#[test]
fn file_formats_need_an_output_path() {
    let options = output_options(None, Some(OutputFormat::Svg));
    assert_eq!(options.target().unwrap_err().message(), "--output is required for SVG output");
    let options = output_options(None, Some(OutputFormat::Png));
    assert_eq!(options.target().unwrap_err().message(), "--output is required for PNG output");
    assert_eq!(
        options.required_output_path("PDF").unwrap_err().message(),
        "--output is required for PDF output"
    );
}

fn cli(command: Option<Command>, ssid: Option<&str>, password: Option<&str>) -> Cli {
    Cli {
        command,
        output: output_options(None, None),
        ssid: ssid.map(|s| s.to_string()),
        password: password.map(|s| s.to_string()),
        security: Security::Wpa,
        hidden: false,
    }
}

#[test]
fn raw_subcommand_encodes_its_text_with_its_options() {
    let raw = Command::Raw {
        text: "WIFI:S:2024shownet;T:WPA;P:from-messe;;".to_string(),
        output: output_options(Some("qrcode.png"), None),
    };
    let request = cli(Some(raw), None, None);
    let served = request.request().unwrap();
    assert_eq!(served.payload, "WIFI:S:2024shownet;T:WPA;P:from-messe;;");
    assert_eq!(served.output.output.as_deref(), Some("qrcode.png"));
}

#[test]
fn wifi_mode_needs_an_ssid() {
    let request = cli(None, None, Some("pw"));
    let error = request.request().err().unwrap();
    assert_eq!(error.message(), "--ssid is required unless using the raw subcommand");
}

#[test]
fn wifi_mode_builds_the_payload() {
    let request = cli(None, Some("2024shownet"), Some("from-messe"));
    let served = request.request().unwrap();
    assert_eq!(served.payload, "WIFI:S:2024shownet;T:WPA;P:from-messe;;");
    assert!(served.output.output.is_none());
    let request = cli(None, Some("2024shownet"), None);
    assert!(matches!(request.request(), Err(WifiQrError::MissingPassword)));
}

#[test]
fn extensions_name_formats_in_any_case() {
    assert_eq!(format_of_extension("PnG"), Some(OutputFormat::Png));
    assert_eq!(format_of_extension("svg"), Some(OutputFormat::Svg));
    assert_eq!(format_of_extension("jpg"), None);
    assert_eq!(format_of_extension(""), None);
}
