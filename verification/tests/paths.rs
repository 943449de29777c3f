use octobuild::paths::{absolutize, is_absolute_path, join_path, with_extension};

#[test]
fn absolute_paths_recognized() {
    assert!(is_absolute_path("/work/a.cpp"));
    assert!(is_absolute_path("\\\\server\\share"));
    assert!(is_absolute_path("C:\\work"));
    assert!(!is_absolute_path("a.cpp"));
    assert!(!is_absolute_path(""));
}

#[test]
fn absolutize_keeps_absolute() {
    assert_eq!(absolutize("/work", "/other/a.cpp"), "/other/a.cpp");
}

#[test]
fn absolutize_joins_relative() {
    assert_eq!(absolutize("/work", "a.cpp"), "/work/a.cpp");
    assert_eq!(absolutize("/work/", "a.cpp"), "/work/a.cpp");
}

#[test]
fn join_adds_one_separator() {
    assert_eq!(join_path("/out", "a.obj"), "/out/a.obj");
    assert_eq!(join_path("/out/", "a.obj"), "/out/a.obj");
}

#[test]
fn extension_replacement() {
    assert_eq!(with_extension("/work/sample.cpp", "obj"), "/work/sample.obj");
    assert_eq!(with_extension("/work/archive.tar.gz", "obj"), "/work/archive.tar.obj");
    assert_eq!(with_extension("/work/noext", "obj"), "/work/noext.obj");
    assert_eq!(with_extension("sample.h", "pch"), "sample.pch");
}
