//! The small parsers of command-line values.

use imzip::cli::{parse_background, parse_jobs, split_size, validate_template, Jobs, OutputFormat};
use imzip::config::SizeArg;

/// The byte count of a size text, as the application works it out: the
/// library splits the text, the number is parsed as an `f64`, times the unit,
/// rounded.
fn parse_size(s: &str) -> Result<u64, String> {
    let (num, e) = split_size(s)?;
    let value: f64 = num.parse().map_err(|_| format!("invalid size number: '{num}'"))?;
    if !value.is_finite() || value < 0.0 {
        return Err(format!("invalid size '{s}'"));
    }
    let mult: f64 = match e {
        0 => 1.0,
        3 => 1_000.0,
        _ => 1_000_000.0,
    };
    Ok((value * mult).round() as u64)
}

fn size(text: &str) -> SizeArg {
    SizeArg { text: text.to_string(), bytes: parse_size(text).ok() }
}


#[test]
fn target_size_parsing() {
    assert_eq!(parse_size("1048576").unwrap(), 1048576);
    assert_eq!(parse_size("42").unwrap(), 42);
    assert_eq!(parse_size("512B").unwrap(), 512);
    assert_eq!(parse_size("200KB").unwrap(), 200_000);
    assert_eq!(parse_size("200kb").unwrap(), 200_000);
    assert_eq!(parse_size("500K").unwrap(), 500_000);
    assert_eq!(parse_size("1.5MB").unwrap(), 1_500_000);
    assert_eq!(parse_size("2m").unwrap(), 2_000_000);
    assert_eq!(parse_size(" 300KB ").unwrap(), 300_000);
    assert!(parse_size("").is_err());
    assert!(parse_size("abc").is_err());
    assert!(parse_size("KB").is_err());
    assert!(parse_size("10GB").is_err());
    assert!(parse_size("-5KB").is_err());
}

#[test]
fn template_validation() {
    assert!(validate_template("{name}.{ext}").is_ok());
    assert!(validate_template("{parent}/{name}-{width}x{height}-{index}.{format}.{ext}").is_ok());
    assert!(validate_template("plain-name.jpg").is_ok());
    assert!(validate_template("{bogus}").is_err());
    assert!(validate_template("{name").is_err());
    assert!(validate_template("name}").is_err());
    assert!(validate_template("{}").is_err());
}

#[test]
fn background_parsing() {
    assert_eq!(parse_background("#ff0080").unwrap(), [255, 0, 128]);
    assert_eq!(parse_background("ff0080").unwrap(), [255, 0, 128]);
    assert_eq!(parse_background("white").unwrap(), [255, 255, 255]);
    assert_eq!(parse_background("black").unwrap(), [0, 0, 0]);
    assert_eq!(parse_background("Blue").unwrap(), [0, 0, 255]);
    assert!(parse_background("transparent").is_err());
    assert!(parse_background("#12345").is_err());
    assert!(parse_background("#gg0000").is_err());
}

#[test]
fn size_error_messages() {
    assert_eq!(parse_size("").unwrap_err(), "invalid size '': missing number");
    assert_eq!(parse_size("10GB").unwrap_err(), "unknown size suffix 'gb' (use B, K/KB or M/MB)");
    assert_eq!(parse_size("1.2.3KB").unwrap_err(), "invalid size number: '1.2.3'");
}

#[test]
fn size_rounds_half_up_and_saturates() {
    assert_eq!(parse_size("0.5").unwrap(), 1);
    assert_eq!(parse_size("0.4").unwrap(), 0);
    assert_eq!(parse_size("99999999999999999999999MB").unwrap(), u64::MAX);
}

#[test]
fn background_extra_names_and_messages() {
    assert_eq!(parse_background(" green ").unwrap(), [0, 0x80, 0]);
    assert_eq!(parse_background("RED").unwrap(), [255, 0, 0]);
    assert_eq!(
        parse_background("nope").unwrap_err(),
        "invalid color 'nope': expected #RRGGBB or one of white, black, red, green, blue"
    );
}

#[test]
fn template_error_messages() {
    assert!(validate_template("{bogus}").unwrap_err().contains("{bogus}"));
}

#[test]
fn jobs_values() {
    assert_eq!(parse_jobs("auto").unwrap(), Jobs::Auto);
    assert_eq!(parse_jobs("AUTO").unwrap(), Jobs::Auto);
    assert_eq!(parse_jobs("4").unwrap(), Jobs::N(4));
    assert_eq!(parse_jobs("+2").unwrap(), Jobs::N(2));
    assert!(parse_jobs("0").is_err());
    assert!(parse_jobs("x").is_err());
}

#[test]
fn format_names_and_extensions() {
    assert_eq!(OutputFormat::Jpeg.extension(), "jpg");
    assert_eq!(OutputFormat::Jpeg.name(), "jpeg");
    assert!(OutputFormat::Png.supports_alpha());
    assert!(!OutputFormat::Jpeg.supports_alpha());
    assert!(OutputFormat::Avif.supports_target_size());
    assert!(!OutputFormat::Gif.supports_target_size());
}

#[test]
fn jobs_from_str_matches_parse_jobs() {
    assert_eq!("auto".parse::<Jobs>().unwrap(), Jobs::Auto);
    assert_eq!("3".parse::<Jobs>().unwrap(), Jobs::N(3));
    assert_eq!(
        "0".parse::<Jobs>().unwrap_err(),
        "invalid jobs value `0`: expected `auto` or a number >= 1"
    );
}

#[test]
fn size_splitting() {
    assert_eq!(split_size(" 1.5 MB ").unwrap(), ("1.5".to_string(), 6));
    assert_eq!(split_size("512b").unwrap(), ("512".to_string(), 0));
    assert_eq!(split_size("").unwrap_err(), "invalid size '': missing number");
    assert_eq!(split_size("1.2.3K").unwrap_err(), "invalid size number: '1.2.3'");
    assert_eq!(split_size("10GB").unwrap_err(), "unknown size suffix 'gb' (use B, K/KB or M/MB)");
    // The byte count follows the f64 parse of the number.
    assert_eq!(parse_size("0.49999999999999999").unwrap(), 1);
    assert_eq!(parse_size("1.0005KB").unwrap(), 1001);
    assert_eq!(size("20KB").bytes, Some(20_000));
}
