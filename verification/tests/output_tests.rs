use shinkansen::output::{OutputDestination, determine_output_destination, determine_output_file_path};

#[test]
fn test_determine_output_destination_stdout() {
    let result = determine_output_destination(&Some("-".to_string()), true, false).unwrap();
    assert_eq!(result, OutputDestination::Stdout);
}

#[test]
fn test_determine_output_destination_single_file() {
    let result = determine_output_destination(&Some("output.txt".to_string()), true, false)
        .unwrap();
    match result {
        OutputDestination::SingleFile(path) => {
            assert_eq!(path, "output.txt");
        }
        _ => panic!("Expected SingleFile output destination"),
    }
}

#[test]
fn test_determine_output_destination_directory() {
    let result = determine_output_destination(&Some("output_dir".to_string()), false, false)
        .unwrap();
    match result {
        OutputDestination::Directory(path) => {
            assert_eq!(path, "output_dir");
        }
        _ => panic!("Expected Directory output destination"),
    }
}

#[test]
fn test_determine_output_destination_default_stdout() {
    let result = determine_output_destination(&None, true, false).unwrap();
    assert_eq!(result, OutputDestination::Stdout);
}

#[test]
fn test_determine_output_destination_error() {
    let result = determine_output_destination(&None, false, false);
    assert!(result.is_err());
}

#[test]
fn test_output_file_path_preserves_structure() {
    let inputs = vec!["templates".to_string()];
    // The single input is a directory holding the file: the relative
    // path below it is preserved
    let path = determine_output_file_path("out", "templates/sub/a.txt", &inputs, true);
    assert_eq!(path, "out/sub/a.txt");

    // The file does not lie under the input: only its name is used
    let path = determine_output_file_path("out", "elsewhere/b.txt", &inputs, true);
    assert_eq!(path, "out/b.txt");

    // The single input is a plain file: only the name is used
    let path = determine_output_file_path("out", "templates/c.txt", &inputs, false);
    assert_eq!(path, "out/c.txt");

    // Several inputs: only the name is used
    let many = vec!["a.txt".to_string(), "b.txt".to_string()];
    let path = determine_output_file_path("out/", "a.txt", &many, false);
    assert_eq!(path, "out/a.txt");
}
