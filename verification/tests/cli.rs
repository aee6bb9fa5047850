use denote::cli::{Command, UsageError};

fn args(items: &[&str]) -> Vec<String> {
    items.iter().map(|s| s.to_string()).collect()
}

#[test]
fn each_flag_names_its_command() {
    assert_eq!(Command::from_args(&args(&["--new"])), Ok(Command::New));
    assert_eq!(Command::from_args(&args(&["--find"])), Ok(Command::Find));
    assert_eq!(Command::from_args(&args(&["--rename"])), Ok(Command::Rename));
    assert_eq!(Command::from_args(&args(&["--date"])), Ok(Command::Date));
    assert_eq!(Command::from_args(&args(&["--config"])), Ok(Command::Config));
}

#[test]
fn white_space_around_the_flag_is_ignored() {
    assert_eq!(Command::from_args(&args(&["  --new\n"])), Ok(Command::New));
    assert_eq!(Command::from_args(&args(&["--find", "more"])), Ok(Command::Find));
}

#[test]
fn no_argument_is_an_error() {
    assert_eq!(Command::from_args(&Vec::new()), Err(UsageError::NoArgument));
}

#[test]
fn an_unknown_flag_is_an_error() {
    assert_eq!(Command::from_args(&args(&["--help"])), Err(UsageError::UnknownFlag));
    assert_eq!(Command::from_args(&args(&[""])), Err(UsageError::UnknownFlag));
    assert_eq!(Command::from_args(&args(&["new"])), Err(UsageError::UnknownFlag));
    assert_eq!(Command::from_args(&args(&["-- new"])), Err(UsageError::UnknownFlag));
    assert_eq!(Command::from_args(&args(&["x", "--new"])), Err(UsageError::UnknownFlag));
}

#[test]
fn from_flag_takes_the_flag_as_it_is() {
    assert_eq!(Command::from_flag("--date"), Some(Command::Date));
    assert_eq!(Command::from_flag(" --date"), None);
    assert_eq!(Command::from_flag("--dat"), None);
}

#[test]
fn usage_errors_have_their_messages() {
    assert_eq!(
        UsageError::NoArgument.message(),
        "You must supply an argument: use --help for argument list"
    );
    assert_eq!(UsageError::UnknownFlag.message(), "Incorrect Flag used");
}
