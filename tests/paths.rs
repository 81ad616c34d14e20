use klyx_extension::paths::{
    PathError, PathStyle, SanitizedPath, is_absolute, normalize_path, writeable_path_from_extension,
};

#[test]
fn absolute_paths_by_style() {
    assert!(is_absolute("/a", PathStyle::Posix));
    assert!(!is_absolute("a", PathStyle::Posix));
    assert!(!is_absolute("C:\\a", PathStyle::Posix));
    assert!(is_absolute("C:\\a", PathStyle::Windows));
    assert!(is_absolute("c:/a", PathStyle::Windows));
    assert!(is_absolute("\\a", PathStyle::Windows));
    assert!(!is_absolute("c:a", PathStyle::Windows));
    assert!(!is_absolute("", PathStyle::Windows));
}

#[test]
fn style_join_and_split() {
    assert_eq!(PathStyle::Posix.join("a", "b").as_deref(), Some("a/b"));
    assert_eq!(PathStyle::Posix.join("a/", "b").as_deref(), Some("a/b"));
    assert_eq!(PathStyle::Posix.join("", "b").as_deref(), Some("b"));
    assert_eq!(PathStyle::Posix.join("a", "/b"), None);
    assert_eq!(PathStyle::Windows.join("C:\\x", "y").as_deref(), Some("C:\\x\\y"));
    let (dir, file) = PathStyle::Posix.split("a/b/c.txt");
    assert_eq!(dir.as_deref(), Some("a/b/"));
    assert_eq!(file, "c.txt");
    let (dir, file) = PathStyle::Posix.split("c.txt");
    assert_eq!(dir, None);
    assert_eq!(file, "c.txt");
}

#[test]
fn style_strip_prefix() {
    let r = PathStyle::Posix.strip_prefix("/w/a/b", "/w/").unwrap();
    assert_eq!(r.as_unix_str(), "a/b");
    assert_eq!(PathStyle::Posix.strip_prefix("/w", "/w").unwrap().as_unix_str(), "");
    assert!(PathStyle::Posix.strip_prefix("/wx/a", "/w").is_none());
    let r = PathStyle::Windows.strip_prefix("C:\\w\\a\\b", "C:\\w").unwrap();
    assert_eq!(r.as_unix_str(), "a/b");
}

#[test]
fn style_separators() {
    assert_eq!(PathStyle::Posix.primary_separator(), '/');
    assert_eq!(PathStyle::Windows.primary_separator(), '\\');
    assert_eq!(PathStyle::Windows.separators(), vec!["\\".to_string(), "/".to_string()]);
    assert_eq!(PathStyle::Posix.separators_ch(), vec!['/']);
    assert!(PathStyle::Windows.is_windows());
    assert!(PathStyle::Posix.is_posix());
    let local = PathStyle::local();
    assert!(local == PathStyle::Posix || local == PathStyle::Windows);
}

#[test]
fn normalize_host_paths() {
    assert_eq!(normalize_path("/work/ext1/../outside"), "/work/outside");
    assert_eq!(normalize_path("/a/./b//c/"), "/a/b/c");
    assert_eq!(normalize_path("../a"), "a");
    assert_eq!(normalize_path("/.."), "/");
}

#[test]
fn make_executable_outside_work_dir_is_refused() {
    assert_eq!(
        writeable_path_from_extension("/work", "ext1", "../outside"),
        Err(PathError::OutsideWorkDir)
    );
}

#[test]
fn writeable_paths_stay_inside_the_work_dir() {
    assert_eq!(
        writeable_path_from_extension("/work", "ext1", "bin/tool").unwrap(),
        "/work/ext1/bin/tool"
    );
    assert_eq!(
        writeable_path_from_extension("/work", "ext1", "a/../b").unwrap(),
        "/work/ext1/b"
    );
    assert_eq!(writeable_path_from_extension("/work/", "ext1", "").unwrap(), "/work/ext1");
    assert!(writeable_path_from_extension("/work", "ext1", "/etc/passwd").is_err());
    assert!(writeable_path_from_extension("/work", "ext1", "../ext10/x").is_err());
}

#[test]
fn leaving_the_work_dir_and_coming_back_is_refused() {
    assert_eq!(
        writeable_path_from_extension("/abc", "def", "../def"),
        Err(PathError::OutsideWorkDir)
    );
    assert_eq!(
        writeable_path_from_extension("/work", "ext1", "../ext1/x"),
        Err(PathError::OutsideWorkDir)
    );
    assert_eq!(
        writeable_path_from_extension("/work", "ext1", "a/../../ext1/x"),
        Err(PathError::OutsideWorkDir)
    );
    assert_eq!(writeable_path_from_extension("/work", "ext1", "a/b/../../c").unwrap(), "/work/ext1/c");
}

#[test]
fn sanitized_paths() {
    let p = SanitizedPath::new("/a/b/c");
    assert_eq!(p.as_path(), "/a/b/c");
    assert!(p.starts_with(&SanitizedPath::new("/a/b")));
    assert!(!p.starts_with(&SanitizedPath::new("/a/bc")));
    assert_eq!(p.join("d"), "/a/b/c/d");
    assert_eq!(p.parent().unwrap().as_path(), "/a/b");
    assert_eq!(p.strip_prefix(&SanitizedPath::new("/a")).as_deref(), Some("b/c"));
    assert_eq!(p.to_str(), Some("/a/b/c"));
    assert_eq!(p.to_path_buf(), "/a/b/c");
    assert_eq!(SanitizedPath::new_arc("/x").as_path(), "/x");
    assert!(SanitizedPath::new("/").parent().is_none());
    let f = SanitizedPath::new("/a/archive.tar.gz");
    assert_eq!(f.file_name().as_deref(), Some("archive.tar.gz"));
    assert_eq!(f.extension().as_deref(), Some("gz"));
    assert_eq!(SanitizedPath::new("/a/.bashrc").extension(), None);
    assert_eq!(SanitizedPath::new("/a/..").file_name(), None);
    assert_eq!(SanitizedPath::new("/").file_name(), None);
}
