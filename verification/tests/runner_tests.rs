use mat5::check_file_creator;

#[test]
fn check_file_without_results() {
    assert_eq!(check_file_creator("empty_file", &[], false), "load(\"./tests/empty_file.mat\")");
}

#[test]
fn check_file_with_results() {
    assert_eq!(
        check_file_creator("multi_array_file", &["mat1", "mat2"], false),
        "load(\"./tests/multi_array_file.mat\")\nmat1\nmat2"
    );
    assert_eq!(
        check_file_creator("probe_data", &["viscous", "log_law"], true),
        "load(\"./tests/probe_data.mat\")\nviscous;\nlog_law;"
    );
}
