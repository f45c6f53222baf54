use typsastra_docx_ir::{check, detect, CompatibilityError, FormatVersion, FORMAT};

#[test]
fn parses_supported_versions_strictly() {
    assert_eq!(FormatVersion::parse("1.0").unwrap(), FormatVersion::new(1, 0));
    assert_eq!(FormatVersion::parse("1.42").unwrap(), FormatVersion::new(1, 42));
    assert_eq!(FormatVersion::parse("1.65535").unwrap(), FormatVersion::new(1, u16::MAX));

    for malformed in ["1", "1.", ".0", "1.x", "01.0", "1.00", "1.0-beta", " 1.0", "1.65536"] {
        assert!(FormatVersion::parse(malformed).is_err(), "accepted {malformed:?}");
    }
}

#[test]
fn check_accepts_only_the_supported_major() {
    assert_eq!(check(FORMAT, "1.7").unwrap(), FormatVersion::new(1, 7));
    assert_eq!(
        check(FORMAT, "2.0").unwrap_err(),
        CompatibilityError::UnsupportedMajor { actual: 2 }
    );
    assert_eq!(
        check("other", "1.0").unwrap_err(),
        CompatibilityError::WrongFormat { actual: "other".into() }
    );
    assert_eq!(
        check(FORMAT, "1").unwrap_err(),
        CompatibilityError::MalformedVersion("1".into())
    );
}

#[test]
fn detect_accepts_both_known_majors() {
    assert_eq!(detect(FORMAT, "1.0").unwrap(), FormatVersion::new(1, 0));
    assert_eq!(detect(FORMAT, "2.1").unwrap(), FormatVersion::new(2, 1));
    assert!(detect(FORMAT, "3.0").is_err());
}

#[test]
fn compatibility_messages_name_the_problem() {
    assert_eq!(
        check("x", "1.0").unwrap_err().message(),
        "unsupported format \"x\" (expected \"typsastra-docx-ir\")"
    );
    assert_eq!(
        check(FORMAT, "1.x").unwrap_err().message(),
        "malformed format version \"1.x\" (expected major.minor)"
    );
    assert_eq!(
        check(FORMAT, "9.0").unwrap_err().message(),
        "unsupported format major version 9 (supported: 1)"
    );
}
