use std::path::PathBuf;

use engram_mcp::command_line::parse_memory_file_options;

#[test]
fn uses_workspace_default_when_file_argument_is_not_provided() {
    let startup_directory = PathBuf::from("/workspace");

    let options = parse_memory_file_options(&[], startup_directory.to_str().unwrap()).unwrap();

    assert_eq!(
        PathBuf::from(options.file_path),
        PathBuf::from("/workspace/.engram/memory.json")
    );
}

#[test]
fn uses_explicit_file_path_when_file_argument_is_provided() {
    let startup_directory = PathBuf::from("/workspace");
    let options = parse_memory_file_options(
        &["--file".to_string(), "some/path.json".to_string()],
        startup_directory.to_str().unwrap(),
    )
    .unwrap();

    assert_eq!(PathBuf::from(options.file_path), PathBuf::from("some/path.json"));
}

#[test]
fn throws_clear_error_when_file_value_is_missing() {
    let startup_directory = PathBuf::from("/workspace");
    let error =
        parse_memory_file_options(&["--file".to_string()], startup_directory.to_str().unwrap())
            .unwrap_err();

    assert!(error.contains("Missing value for '--file'"));
}

#[test]
fn throws_clear_error_for_unknown_arguments() {
    let startup_directory = PathBuf::from("/workspace");
    let error =
        parse_memory_file_options(&["--wat".to_string()], startup_directory.to_str().unwrap())
            .unwrap_err();

    assert!(error.contains("Unknown argument '--wat'"));
}

#[test]
fn unknown_argument_message_names_the_argument_and_the_expected_form() {
    let error = parse_memory_file_options(&["--wat".to_string()], "/workspace").unwrap_err();

    assert_eq!(error, "Unknown argument '--wat'. Expected '--file <path>'.");
}

#[test]
fn rejects_empty_startup_directory() {
    let error = parse_memory_file_options(&[], "").unwrap_err();

    assert_eq!(error, "Startup directory must not be empty.");
}

#[test]
fn rejects_blank_file_value() {
    let error = parse_memory_file_options(&["--file".to_string(), "   ".to_string()], "/workspace")
        .unwrap_err();

    assert_eq!(error, "The '--file' value must not be empty or whitespace.");
}

#[test]
fn rejects_repeated_file_option() {
    let error = parse_memory_file_options(
        &[
            "--file".to_string(),
            "a.json".to_string(),
            "--file".to_string(),
            "b.json".to_string(),
        ],
        "/workspace",
    )
    .unwrap_err();

    assert_eq!(error, "The '--file' option may only be specified once.");
}

#[test]
fn rejects_unknown_argument_after_file_option() {
    let error = parse_memory_file_options(
        &["--file".to_string(), "a.json".to_string(), "extra".to_string()],
        "/workspace",
    )
    .unwrap_err();

    assert_eq!(error, "Unknown argument 'extra'. Expected '--file <path>'.");
}

#[test]
fn file_value_may_look_like_an_option() {
    let options =
        parse_memory_file_options(&["--file".to_string(), "--file".to_string()], "/workspace")
            .unwrap();

    assert_eq!(options.file_path, "--file");
}
