use colbench::uri::uri_to_path;

#[test]
fn uri_file_scheme_stripped() {
    assert_eq!(uri_to_path("file:///tmp/dataset"), "/tmp/dataset");
    assert_eq!(uri_to_path("file://relative/path"), "relative/path");
}

#[test]
fn uri_plain_path_unchanged() {
    assert_eq!(uri_to_path("/tmp/dataset"), "/tmp/dataset");
    assert_eq!(uri_to_path("dataset"), "dataset");
    assert_eq!(uri_to_path(""), "");
}

#[test]
fn uri_other_scheme_unchanged() {
    assert_eq!(uri_to_path("s3://bucket/key"), "s3://bucket/key");
    // A prefix shorter than the scheme is left as it is.
    assert_eq!(uri_to_path("file:/"), "file:/");
}
