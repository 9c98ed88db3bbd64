use supply_chain::cli::{parse_args, parse_max_age, ArgError, ValidatedArgs};

fn args(v: &[&str]) -> Vec<String> {
    v.iter().map(|s| s.to_string()).collect()
}

#[test]
fn test_cache_max_age_parser() {
    let _ = parse_args(&args(&["crates", "--cache-max-age", "7d"])).unwrap();
    let _ = parse_args(&args(&["crates", "--cache-max-age=7d"])).unwrap();
    let _ = parse_args(&args(&["crates", "--cache-max-age=1w"])).unwrap();
    let _ = parse_args(&args(&["crates", "--cache-max-age=1m"])).unwrap();
    let _ = parse_args(&args(&["crates", "--cache-max-age=1s"])).unwrap();
    // erroneous invocations that must be rejected
    assert!(parse_args(&args(&["crates", "--cache-max-age"])).is_err());
    assert!(parse_args(&args(&["crates", "--cache-max-age=5"])).is_err());
}

#[test]
fn test_accepted_query_options() {
    for command in ["crates", "publishers", "json"] {
        let _ = parse_args(&args(&[command])).unwrap();
        let _ = parse_args(&args(&[command, "-d"])).unwrap();
        let _ = parse_args(&args(&[command, "--diffable"])).unwrap();
        let _ = parse_args(&args(&[command, "--cache-max-age=7d"])).unwrap();
        let _ = parse_args(&args(&[command, "-d", "--cache-max-age=7d"])).unwrap();
        let _ = parse_args(&args(&[command, "--diffable", "--cache-max-age=7d"])).unwrap();
    }
}

#[test]
fn test_accepted_update_options() {
    let _ = parse_args(&args(&["update"])).unwrap();
    let _ = parse_args(&args(&["update", "--cache-max-age=7d"])).unwrap();
    // erroneous invocations that must be rejected
    assert!(parse_args(&args(&["update", "-d"])).is_err());
    assert!(parse_args(&args(&["update", "--diffable"])).is_err());
    assert!(parse_args(&args(&["update", "-d", "--cache-max-age=7d"])).is_err());
    assert!(parse_args(&args(&["update", "--diffable", "--cache-max-age=7d"])).is_err());
}

#[test]
fn max_age_is_read_by_humantime() {
    let a = parse_max_age("7d").unwrap();
    assert_eq!(a.secs, 7 * 24 * 3600);
    assert_eq!(a.nanos, 0);
    let b = parse_max_age("1d 6h").unwrap();
    assert_eq!(b.secs, 30 * 3600);
    let c = parse_max_age("32ms").unwrap();
    assert_eq!((c.secs, c.nanos), (0, 32_000_000));
    assert_eq!(parse_max_age("").unwrap_err(), ArgError::InvalidAge);
    assert_eq!(parse_max_age("5").unwrap_err(), ArgError::InvalidAge);
}

#[test]
fn age_texts_with_many_digits_are_refused() {
    // Long texts are read; only texts with more than eleven digits are refused.
    let a = parse_max_age("1 year 2 months 3 weeks 4 days").unwrap();
    assert_eq!(a.secs, 31_557_600 + 2 * 2_630_016 + 3 * 7 * 86400 + 4 * 86400);
    assert_eq!(parse_max_age("99999999999s").unwrap().secs, 99_999_999_999);
    assert_eq!(parse_max_age("100000000000s").unwrap_err(), ArgError::InvalidAge);
    assert_eq!(
        parse_max_age("18446744073709551615s 1000000000ns").unwrap_err(),
        ArgError::InvalidAge
    );
    assert_eq!(
        parse_args(&args(&["crates", "--cache-max-age=584542046090y 19767615s 1000ms"])).unwrap_err(),
        ArgError::InvalidAge
    );
}

#[test]
fn help_flags_ask_for_help() {
    for flags in [&["-h"][..], &["--help"][..]] {
        match parse_args(&args(flags)).unwrap() {
            ValidatedArgs::Help { command } => assert!(command.is_none()),
            other => panic!("unexpected {:?}", other),
        }
    }
    match parse_args(&args(&["crates", "-d", "--help"])).unwrap() {
        ValidatedArgs::Help { command } => assert_eq!(command.as_deref(), Some("crates")),
        other => panic!("unexpected {:?}", other),
    }
    match parse_args(&args(&["update", "-h"])).unwrap() {
        ValidatedArgs::Help { command } => assert_eq!(command.as_deref(), Some("update")),
        other => panic!("unexpected {:?}", other),
    }
}

#[test]
fn default_age_is_48_hours() {
    match parse_args(&args(&["update"])).unwrap() {
        ValidatedArgs::Update { cache_max_age } => {
            assert_eq!(cache_max_age.secs, 48 * 3600);
            assert_eq!(cache_max_age.nanos, 0);
        }
        other => panic!("unexpected {:?}", other),
    }
}

#[test]
fn query_options_are_collected() {
    let r = parse_args(&args(&[
        "json",
        "--cache-max-age",
        "2h",
        "-m",
        "--locked",
        "-m",
        "--offline",
        "--all-features",
        "--features=a,b",
        "--target",
        "x86_64-unknown-linux-gnu",
        "--manifest-path=/tmp/Cargo.toml",
    ]))
    .unwrap();
    match r {
        ValidatedArgs::Json { args: a, meta_args: m } => {
            assert_eq!(a.cache_max_age.secs, 7200);
            assert!(!a.diffable);
            assert_eq!(a.metadata_args, vec!["--locked".to_string(), "--offline".to_string()]);
            assert!(m.all_features);
            assert!(!m.no_default_features);
            assert_eq!(m.features.as_deref(), Some("a,b"));
            assert_eq!(m.target.as_deref(), Some("x86_64-unknown-linux-gnu"));
            assert_eq!(m.manifest_path.as_deref(), Some("/tmp/Cargo.toml"));
        }
        other => panic!("unexpected {:?}", other),
    }
}

#[test]
fn command_line_errors() {
    assert_eq!(parse_args(&args(&[])).unwrap_err(), ArgError::NoCommand);
    assert_eq!(parse_args(&args(&["frobnicate"])).unwrap_err(), ArgError::UnknownCommand);
    assert_eq!(parse_args(&args(&["crates", "--bogus"])).unwrap_err(), ArgError::UnexpectedArgument);
    assert_eq!(parse_args(&args(&["crates", "-m"])).unwrap_err(), ArgError::MissingValue);
    assert_eq!(parse_args(&args(&["crates", "-d", "-d"])).unwrap_err(), ArgError::Repeated);
    assert_eq!(
        parse_args(&args(&["crates", "--target=a", "--target", "b"])).unwrap_err(),
        ArgError::Repeated
    );
    assert_eq!(parse_args(&args(&["crates", "--cache-max-age=soon"])).unwrap_err(), ArgError::InvalidAge);
    assert_eq!(parse_args(&args(&["update", "--all-features"])).unwrap_err(), ArgError::UnexpectedArgument);
}

#[test]
fn help_takes_an_optional_command() {
    match parse_args(&args(&["help", "crates"])).unwrap() {
        ValidatedArgs::Help { command } => assert_eq!(command.as_deref(), Some("crates")),
        other => panic!("unexpected {:?}", other),
    }
    match parse_args(&args(&["help"])).unwrap() {
        ValidatedArgs::Help { command } => assert!(command.is_none()),
        other => panic!("unexpected {:?}", other),
    }
    assert_eq!(parse_args(&args(&["help", "a", "b"])).unwrap_err(), ArgError::UnexpectedArgument);
}
