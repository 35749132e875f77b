use minigrep::{Config, ConfigError};

fn args(list: &[&str]) -> Vec<String> {
    list.iter().map(|s| s.to_string()).collect()
}

#[test]
fn defaults_when_nothing_is_given() {
    let config = Config::build(args(&["prog"]), None).unwrap();
    assert_eq!("", config.query);
    assert_eq!("", config.file_path);
    assert!(!config.ignore_case);
}

#[test]
fn empty_argument_list_resolves_to_defaults() {
    let config = Config::build(Vec::new(), None).unwrap();
    assert_eq!("", config.query);
    assert_eq!("", config.file_path);
    assert!(!config.ignore_case);
}

#[test]
fn short_flags_set_query_and_file_path() {
    let config = Config::build(args(&["prog", "-q", "duct", "-f", "poem.txt"]), None).unwrap();
    assert_eq!("duct", config.query);
    assert_eq!("poem.txt", config.file_path);
    assert!(!config.ignore_case);
}

#[test]
fn long_flags_set_query_and_file_path() {
    let config = Config::build(
        args(&["prog", "--query", "duct", "--file_path", "poem.txt"]),
        None,
    )
    .unwrap();
    assert_eq!("duct", config.query);
    assert_eq!("poem.txt", config.file_path);
}

#[test]
fn later_flag_value_overwrites_earlier_one() {
    let config = Config::build(args(&["prog", "-q", "first", "-q", "second"]), None).unwrap();
    assert_eq!("second", config.query);
}

#[test]
fn environment_one_sets_ignore_case() {
    let config = Config::build(args(&["prog"]), Some("1".to_string())).unwrap();
    assert!(config.ignore_case);
}

#[test]
fn environment_zero_keeps_ignore_case_off() {
    let config = Config::build(args(&["prog"]), Some("0".to_string())).unwrap();
    assert!(!config.ignore_case);
}

#[test]
fn command_line_overrides_environment() {
    let config = Config::build(args(&["prog", "-i", "0"]), Some("1".to_string())).unwrap();
    assert!(!config.ignore_case);
}

#[test]
fn ignore_case_flag_value_one_turns_it_on() {
    let config = Config::build(args(&["prog", "--ignore_case", "1"]), None).unwrap();
    assert!(config.ignore_case);
}

#[test]
fn trailing_ignore_case_flag_without_value_keeps_current_value() {
    let from_env = Config::build(args(&["prog", "-i"]), Some("1".to_string())).unwrap();
    assert!(from_env.ignore_case);

    let from_default = Config::build(args(&["prog", "-i"]), None).unwrap();
    assert!(!from_default.ignore_case);
}

#[test]
fn unsupported_environment_value_is_rejected() {
    let err = Config::build(args(&["prog"]), Some("yes".to_string())).unwrap_err();
    assert_eq!(ConfigError::UnsupportedEnvValue, err);
    assert_eq!(
        "Not support environment parse, -i or --ignore_case only support '0' or '1'!",
        err.message()
    );
}

#[test]
fn unsupported_ignore_case_value_is_rejected() {
    let err = Config::build(args(&["prog", "-i", "2"]), None).unwrap_err();
    assert_eq!(ConfigError::UnsupportedIgnoreCaseValue, err);
    assert_eq!(
        "Not support command parse, -i or --ignore_case only support '0' or '1'!",
        err.message()
    );
}

#[test]
fn query_flag_without_value_is_rejected() {
    let err = Config::build(args(&["prog", "-q"]), None).unwrap_err();
    assert_eq!(ConfigError::MissingQueryValue, err);
    assert_eq!("Didn't get a query string!", err.message());
}

#[test]
fn file_path_flag_without_value_is_rejected() {
    let err = Config::build(args(&["prog", "--file_path"]), None).unwrap_err();
    assert_eq!(ConfigError::MissingFilePathValue, err);
    assert_eq!("Didn't get a file path!", err.message());
}

#[test]
fn unrecognized_argument_is_rejected() {
    let err = Config::build(args(&["prog", "-x"]), None).unwrap_err();
    assert_eq!(ConfigError::IllegalArgument, err);
    assert_eq!("Illegal arguments!", err.message());
}

#[test]
fn bare_value_not_consumed_by_a_flag_is_rejected() {
    let err = Config::build(args(&["prog", "-q", "duct", "stray"]), None).unwrap_err();
    assert_eq!(ConfigError::IllegalArgument, err);
}
