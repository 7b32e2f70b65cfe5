use taskmaster::errors::TaskmasterError;
use taskmaster::signals::_Signalstopper;
use taskmaster::text::{is_white_space, split_whitespace, trim};
use taskmaster::umask::{parse_umask, umask_from_config, UmaskConfig, UmaskError};

#[test]
fn umask_plain_octal() {
    assert_eq!(parse_umask("022"), Ok(18));
    assert_eq!(parse_umask("777"), Ok(511));
    assert_eq!(parse_umask("0"), Ok(0));
}

#[test]
fn umask_with_prefix_reads_the_same() {
    assert_eq!(parse_umask("0o022"), Ok(18));
    assert_eq!(parse_umask("0o022"), parse_umask("022"));
    assert_eq!(parse_umask("0o0o7"), Ok(7));
}

#[test]
fn umask_sign_and_errors() {
    assert_eq!(parse_umask("+17"), Ok(15));
    assert_eq!(parse_umask(""), Err(UmaskError::Empty));
    assert_eq!(parse_umask("0o"), Err(UmaskError::Empty));
    assert_eq!(parse_umask("+"), Err(UmaskError::InvalidDigit));
    assert_eq!(parse_umask("-"), Err(UmaskError::InvalidDigit));
    assert_eq!(parse_umask("-1"), Err(UmaskError::InvalidDigit));
    assert_eq!(parse_umask("8"), Err(UmaskError::InvalidDigit));
    assert_eq!(parse_umask(" 22"), Err(UmaskError::InvalidDigit));
}

#[test]
fn umask_overflow_comes_before_a_later_bad_digit() {
    assert_eq!(parse_umask("177777"), Ok(65535));
    assert_eq!(parse_umask("200000"), Err(UmaskError::PosOverflow));
    assert_eq!(parse_umask("7777777x"), Err(UmaskError::PosOverflow));
    assert_eq!(parse_umask("9999999"), Err(UmaskError::InvalidDigit));
}

#[test]
fn umask_settings() {
    assert_eq!(umask_from_config(None), Ok(None));
    assert_eq!(umask_from_config(Some(UmaskConfig::Int(18))), Ok(Some(18)));
    assert_eq!(umask_from_config(Some(UmaskConfig::Str("0o077".to_string()))), Ok(Some(63)));
    assert_eq!(
        umask_from_config(Some(UmaskConfig::Str("abc".to_string()))),
        Err(UmaskError::InvalidDigit)
    );
}

#[test]
fn signal_numbers() {
    assert_eq!(_Signalstopper::from_i32(1), Some(_Signalstopper::SIGHUP));
    assert_eq!(_Signalstopper::from_i32(2), Some(_Signalstopper::SIGINT));
    assert_eq!(_Signalstopper::from_i32(6), Some(_Signalstopper::SIGABRT));
    assert_eq!(_Signalstopper::from_i32(15), Some(_Signalstopper::SIGTERM));
    assert_eq!(_Signalstopper::from_i32(29), Some(_Signalstopper::SIGIO));
    assert_eq!(_Signalstopper::from_i32(31), Some(_Signalstopper::SIGSYS));
    assert_eq!(_Signalstopper::from_i32(0), None);
    assert_eq!(_Signalstopper::from_i32(32), None);
    assert_eq!(_Signalstopper::from_i32(-9), None);
}

#[test]
fn words_of_a_line() {
    assert_eq!(split_whitespace("start  a\tb \n"), vec!["start", "a", "b"]);
    assert_eq!(split_whitespace("   "), Vec::<String>::new());
    assert_eq!(split_whitespace(""), Vec::<String>::new());
    assert_eq!(split_whitespace("one"), vec!["one"]);
    assert_eq!(split_whitespace("\u{a0}x\u{2003}y"), vec!["x", "y"]);
}

#[test]
fn error_descriptions() {
    assert_eq!(
        TaskmasterError::ParsingError("bad".to_string()).describe(),
        "Parsing error : bad"
    );
    assert_eq!(
        TaskmasterError::InvalidParam("x".to_string()).describe(),
        "Invalid param : x"
    );
    assert_eq!(
        TaskmasterError::Argument("Too many arguments provided".to_string()).describe(),
        "Argument error : Too many arguments provided"
    );
    assert_eq!(TaskmasterError::Yaml("y".to_string()).describe(), "Error YAML : y");
    assert_eq!(TaskmasterError::Io("z".to_string()).describe(), "Erreur système I/O : z");
}

#[test]
fn white_space_is_the_unicode_property() {
    for c in (0u32..=0x10ffff).filter_map(char::from_u32) {
        assert_eq!(is_white_space(c), c.is_whitespace(), "{:?}", c);
    }
}

#[test]
fn trim_matches_std() {
    for t in ["", "   ", "a", " a ", "\t a b \n", "\u{a0}x\u{2003}", "x\u{85}", "\u{200b}y"] {
        assert_eq!(trim(t), t.trim());
    }
}
