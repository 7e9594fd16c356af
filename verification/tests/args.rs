use xray_core::{Args, ArgsError, Format};

#[test]
fn parses_all_options() {
    let args = Args::try_parse_from(&[
        "wickra-xray",
        "--spec",
        "s.json",
        "--data",
        "d",
        "--at",
        "1500",
        "--format",
        "json",
    ])
    .unwrap();
    assert_eq!(args.spec, "s.json");
    assert_eq!(args.data, Some("d".to_string()));
    assert!(!args.stdin);
    assert_eq!(args.at, Some(1500));
    assert_eq!(args.format, Format::Json);
}

#[test]
fn format_defaults_to_text() {
    let args = Args::try_parse_from(&["wickra-xray", "--spec", "s.json", "--stdin"]).unwrap();
    assert_eq!(args.format, Format::Text);
    assert!(args.stdin);
}

#[test]
fn data_and_stdin_conflict() {
    let err = Args::try_parse_from(&["wickra-xray", "--spec", "s.json", "--data", "d", "--stdin"]);
    assert!(err.is_err());
    assert_eq!(err, Err(ArgsError::Conflict));
}

#[test]
fn equals_form_and_signed_timestamps() {
    let args = Args::try_parse_from(&["x", "--spec=a.toml", "--at=-25", "--format=text"]).unwrap();
    assert_eq!(args.spec, "a.toml");
    assert_eq!(args.at, Some(-25));
    assert_eq!(args.format, Format::Text);
    assert_eq!(args.data, None);
}

#[test]
fn missing_spec_is_rejected() {
    assert_eq!(Args::try_parse_from(&["x", "--stdin"]), Err(ArgsError::MissingSpec));
    assert_eq!(Args::try_parse_from(&["x"]), Err(ArgsError::MissingSpec));
}

#[test]
fn option_values_are_checked() {
    assert_eq!(
        Args::try_parse_from(&["x", "--spec", "s", "--at", "12x"]),
        Err(ArgsError::InvalidValue("--at".to_string(), "12x".to_string()))
    );
    assert_eq!(
        Args::try_parse_from(&["x", "--spec", "s", "--format", "yaml"]),
        Err(ArgsError::InvalidValue("--format".to_string(), "yaml".to_string()))
    );
    assert_eq!(
        Args::try_parse_from(&["x", "--spec", "s", "--at", "99999999999999999999"]),
        Err(ArgsError::InvalidValue("--at".to_string(), "99999999999999999999".to_string()))
    );
    assert_eq!(Args::try_parse_from(&["x", "--spec"]), Err(ArgsError::MissingValue("--spec".to_string())));
    assert_eq!(
        Args::try_parse_from(&["x", "--spec", "--stdin"]),
        Err(ArgsError::MissingValue("--spec".to_string()))
    );
}

#[test]
fn repeats_unknowns_and_help() {
    assert_eq!(
        Args::try_parse_from(&["x", "--spec", "a", "--spec", "b"]),
        Err(ArgsError::Duplicate("--spec".to_string()))
    );
    assert_eq!(
        Args::try_parse_from(&["x", "--spec", "a", "--stdin", "--stdin"]),
        Err(ArgsError::Duplicate("--stdin".to_string()))
    );
    assert_eq!(
        Args::try_parse_from(&["x", "--spec", "a", "extra"]),
        Err(ArgsError::UnknownArgument("extra".to_string()))
    );
    assert_eq!(
        Args::try_parse_from(&["x", "--stdin=yes"]),
        Err(ArgsError::UnexpectedValue("--stdin".to_string()))
    );
    assert_eq!(Args::try_parse_from(&["x", "--help"]), Err(ArgsError::Help));
    assert_eq!(Args::try_parse_from(&["x", "-V"]), Err(ArgsError::Version));
    assert_eq!(Args::try_parse_from(&["x", "--spec", "a", "--"]).unwrap().spec, "a");
}
