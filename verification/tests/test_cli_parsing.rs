use grim_rs::parse_cli_args;
use grim_rs::usage_text;
use grim_rs::FileType;
use grim_rs::Scale;

fn parse(args: &[&str]) -> Result<grim_rs::CliConfig, String> {
    let owned: Vec<String> = args.iter().map(|a| a.to_string()).collect();
    parse_cli_args(&owned)
}

#[test]
fn cli_help_short_prints_usage_without_wayland() {
    let cfg = parse(&["-h"]).unwrap();
    assert!(cfg.help);
    let usage = usage_text();
    assert!(usage.contains("Usage: grim [options...] [output-file]"));
    assert!(usage.contains("-s <factor>"));
}

#[test]
fn cli_help_long_prints_usage_without_wayland() {
    let cfg = parse(&["--help"]).unwrap();
    assert!(cfg.help);
    let usage = usage_text();
    assert!(usage.contains("Usage: grim [options...] [output-file]"));
    assert!(usage.contains("-t png|ppm|jpeg"));
}

#[test]
fn cli_fails_when_scale_argument_is_missing() {
    let err = parse(&["-s"]).unwrap_err();
    assert!(err.contains("Error: -s requires an argument"));
}

#[test]
fn cli_fails_when_geometry_argument_is_missing() {
    let err = parse(&["-g"]).unwrap_err();
    assert!(err.contains("Error: -g requires an argument"));
}

#[test]
fn cli_fails_when_type_argument_is_missing() {
    let err = parse(&["-t"]).unwrap_err();
    assert!(err.contains("Error: -t requires an argument"));
}

#[test]
fn cli_fails_for_invalid_filetype() {
    let err = parse(&["-t", "gif"]).unwrap_err();
    assert!(err.contains("Error: invalid filetype: gif"));
}

#[test]
fn cli_fails_for_invalid_quality_range() {
    let err = parse(&["-q", "101"]).unwrap_err();
    assert!(err.contains("Error: JPEG quality must be between 0 and 100"));
}

#[test]
fn cli_fails_for_invalid_compression_level_range() {
    let err = parse(&["-l", "10"]).unwrap_err();
    assert!(err.contains("Error: PNG compression level must be between 0 and 9"));
}

#[test]
fn cli_fails_for_negative_compression_level() {
    let err = parse(&["-l", "-1"]).unwrap_err();
    assert!(err.contains("Error: PNG compression level must be between 0 and 9"));
}

#[test]
fn cli_fails_for_non_numeric_scale() {
    let err = parse(&["-s", "abc"]).unwrap_err();
    assert!(err.contains("Invalid scale factor"));
}

#[test]
fn cli_fails_for_non_numeric_quality() {
    let err = parse(&["-q", "bad"]).unwrap_err();
    assert!(err.contains("Invalid quality value"));
}

#[test]
fn cli_fails_for_too_many_positional_arguments() {
    let err = parse(&["out1.png", "out2.png"]).unwrap_err();
    assert!(err.contains("Error: too many arguments"));
}

#[test]
fn cli_accepts_a_full_command_line() {
    let cfg = parse(&["-s", "1.5", "-t", "jpeg", "-q", "90", "-g", "0,0 100x50", "shot.jpg"])
        .unwrap();
    assert_eq!(cfg.scale, Some(Scale { num: 15, den: 10 }));
    assert_eq!(cfg.filetype, FileType::Jpeg);
    assert_eq!(cfg.jpeg_quality, 90);
    let g = cfg.geometry.unwrap();
    assert_eq!(g.width(), 100);
    assert_eq!(g.height(), 50);
    assert_eq!(cfg.output_path.as_deref(), Some("shot.jpg"));
}

#[test]
fn cli_defaults_are_png_level_six_quality_eighty() {
    let cfg = parse(&[]).unwrap();
    assert!(!cfg.help);
    assert_eq!(cfg.filetype, FileType::Png);
    assert_eq!(cfg.png_level, 6);
    assert_eq!(cfg.jpeg_quality, 80);
    assert!(cfg.scale.is_none());
    assert!(cfg.geometry.is_none());
    assert!(cfg.output_path.is_none());
}

#[test]
fn cli_scale_parses_integers_and_decimals() {
    assert_eq!(grim_rs::parse_scale("2"), Some(Scale { num: 2, den: 1 }));
    assert_eq!(grim_rs::parse_scale("0.5"), Some(Scale { num: 5, den: 10 }));
    assert_eq!(grim_rs::parse_scale("1.25"), Some(Scale { num: 125, den: 100 }));
    assert_eq!(grim_rs::parse_scale("abc"), None);
    assert_eq!(grim_rs::parse_scale("0"), None);
    assert_eq!(grim_rs::parse_scale(""), None);
    assert_eq!(grim_rs::parse_scale("1.2.3"), None);
}

#[test]
fn cli_rejects_unknown_options() {
    let err = parse(&["-z"]).unwrap_err();
    assert!(err.contains("Error: unknown option: -z"));
}
