use seq_expand::command::{BuildError, Command};

#[test]
fn command_is_built_from_its_fields() {
    let mut builder = Command::builder();
    builder
        .executable("cargo".to_string())
        .args(vec!["build".to_string(), "--release".to_string()])
        .env(vec!["RUST_LOG=info".to_string()])
        .current_dir("..".to_string());
    let command = builder.build().unwrap();
    assert_eq!(command.executable(), "cargo");
    assert_eq!(command.args(), &vec!["build".to_string(), "--release".to_string()]);
    assert_eq!(command.env(), &vec!["RUST_LOG=info".to_string()]);
    assert_eq!(command.current_dir(), &Some("..".to_string()));
}

#[test]
fn missing_lists_are_empty_and_directory_is_optional() {
    let mut builder = Command::builder();
    builder.executable("1".to_string());
    let command = builder.build().unwrap();
    assert_eq!(command.executable(), "1");
    assert!(command.args().is_empty());
    assert!(command.env().is_empty());
    assert!(command.current_dir().is_none());
}

#[test]
fn executable_is_needed() {
    let mut builder = Command::builder();
    builder.args(vec!["x".to_string()]).current_dir("/".to_string());
    assert_eq!(builder.build(), Err(BuildError::ExecutableNotSet));
    assert_eq!(Command::builder().build(), Err(BuildError::ExecutableNotSet));
}

#[test]
fn later_value_replaces_earlier() {
    let mut builder = Command::builder();
    builder.executable("a".to_string()).executable("b".to_string());
    let first = builder.build().unwrap();
    let second = builder.build().unwrap();
    assert_eq!(first.executable(), "b");
    assert_eq!(first, second);
}
