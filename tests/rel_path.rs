use klyx_extension::paths::PathStyle;
use klyx_extension::rel_path::{RelPath, RelPathBuf, RelPathError};

fn posix(s: &str) -> RelPath {
    RelPath::new(s, PathStyle::Posix).unwrap()
}

#[test]
fn new_normalizes_dot_and_parent_components() {
    let p = posix("./a/./b/../c/");
    assert_eq!(p.as_unix_str(), "a/c");
    assert_eq!(posix("a//b").as_unix_str(), "a/b");
    assert_eq!(posix("").as_unix_str(), "");
    assert_eq!(posix("././a").as_unix_str(), "a");
}

#[test]
fn new_rejects_absolute_paths() {
    assert_eq!(RelPath::new("/a", PathStyle::Posix).err(), Some(RelPathError::Absolute));
    assert_eq!(RelPath::new("C:\\x", PathStyle::Windows).err(), Some(RelPathError::Absolute));
    assert_eq!(RelPath::new("\\x", PathStyle::Windows).err(), Some(RelPathError::Absolute));
    assert_eq!(RelPath::new("/", PathStyle::Posix).err(), Some(RelPathError::Absolute));
}

#[test]
fn new_rejects_escaping_the_root() {
    assert_eq!(RelPath::new("a/../..", PathStyle::Posix).err(), Some(RelPathError::EscapesRoot));
    assert_eq!(RelPath::new("..", PathStyle::Posix).err(), Some(RelPathError::EscapesRoot));
}

#[test]
fn new_reads_windows_separators() {
    let p = RelPath::new(".\\a\\b\\", PathStyle::Windows).unwrap();
    assert_eq!(p.as_unix_str(), "a/b");
    assert_eq!(p.display(PathStyle::Windows), "a\\b");
    assert_eq!(p.display(PathStyle::Posix), "a/b");
    // under Posix a backslash is an ordinary character
    assert_eq!(posix("a\\b").as_unix_str(), "a\\b");
}

#[test]
fn unix_accepts_only_normal_form() {
    assert_eq!(RelPath::unix("a/b").unwrap().as_unix_str(), "a/b");
    assert_eq!(RelPath::unix("./a/b/").unwrap().as_unix_str(), "a/b");
    assert_eq!(RelPath::unix("a//b").err(), Some(RelPathError::NotNormalized));
    assert_eq!(RelPath::unix("a/../b").err(), Some(RelPathError::NotNormalized));
    assert_eq!(RelPath::unix("/a").err(), Some(RelPathError::Absolute));
    assert_eq!(RelPath::from_proto("x/y").unwrap().to_proto(), "x/y");
}

#[test]
fn display_then_parse_gives_the_same_path() {
    for s in ["", "a", "a/b/c", "x/.hidden/y.txt", "c:foo/bar"] {
        let r = posix(s);
        let shown = r.display(PathStyle::Posix);
        assert_eq!(posix(&shown).as_unix_str(), r.as_unix_str());
        let shown_w = r.display(PathStyle::Windows);
        let back = RelPath::new(&shown_w, PathStyle::Windows).unwrap();
        assert_eq!(back.as_unix_str(), r.as_unix_str());
    }
}

#[test]
fn windows_parse_refuses_drive_like_results() {
    assert_eq!(
        RelPath::new("x/../c:/foo", PathStyle::Windows).err(),
        Some(RelPathError::Absolute)
    );
    assert_eq!(
        RelPath::new("ab/../C:/xy", PathStyle::Windows).err(),
        Some(RelPathError::Absolute)
    );
    // under Posix the same text is an ordinary relative path
    assert_eq!(posix("ab/../C:/xy").as_unix_str(), "C:/xy");
    for s in ["a\\b\\..\\c", ".\\x\\y\\", "c:d\\e"] {
        let r = RelPath::new(s, PathStyle::Windows).unwrap();
        let back = RelPath::new(&r.display(PathStyle::Windows), PathStyle::Windows).unwrap();
        assert!(back == r);
    }
}

#[test]
fn components_from_both_ends() {
    let p = posix("a/b/c");
    let mut c = p.components();
    assert_eq!(c.next().as_deref(), Some("a"));
    assert_eq!(c.next_back().as_deref(), Some("c"));
    assert_eq!(c.rest().as_unix_str(), "b");
    assert_eq!(c.next().as_deref(), Some("b"));
    assert_eq!(c.next(), None);
    assert_eq!(c.next_back(), None);
    assert!(posix("").components().next().is_none());
}

#[test]
fn ancestors_down_to_empty() {
    let p = posix("a/b");
    let mut a = p.ancestors();
    let mut seen = Vec::new();
    while let Some(x) = a.next() {
        seen.push(x.as_unix_str().to_string());
    }
    assert_eq!(seen, vec!["a/b", "a", ""]);
}

#[test]
fn file_name_stem_and_extension() {
    let p = posix("dir/archive.tar.gz");
    assert_eq!(p.file_name().as_deref(), Some("archive.tar.gz"));
    assert_eq!(p.file_stem().as_deref(), Some("archive.tar"));
    assert_eq!(p.extension().as_deref(), Some("gz"));
    let h = posix(".bashrc");
    assert_eq!(h.file_stem().as_deref(), Some(".bashrc"));
    assert_eq!(h.extension(), None);
    let d = posix("name.");
    assert_eq!(d.file_stem().as_deref(), Some("name"));
    assert_eq!(d.extension().as_deref(), Some(""));
    assert_eq!(posix("").file_name(), None);
}

#[test]
fn parent_of_paths() {
    assert_eq!(posix("a/b/c").parent().unwrap().as_unix_str(), "a/b");
    assert_eq!(posix("a").parent().unwrap().as_unix_str(), "");
    assert!(posix("").parent().is_none());
}

#[test]
fn prefixes_and_suffixes() {
    let p = posix("a/b/c");
    assert!(p.starts_with(&posix("a/b")));
    assert!(!p.starts_with(&posix("a/bc")));
    assert!(p.starts_with(&posix("")));
    assert_eq!(p.strip_prefix(&posix("a")).unwrap().as_unix_str(), "b/c");
    assert_eq!(p.strip_prefix(&posix("a/b/c")).unwrap().as_unix_str(), "");
    assert!(p.strip_prefix(&posix("b")).is_err());
    assert!(p.ends_with(&posix("b/c")));
    assert!(!p.ends_with(&posix("bb/c")));
    assert!(!p.ends_with(&posix("")));
    assert!(posix("").ends_with(&posix("")));
}

#[test]
fn len_and_last_components() {
    assert_eq!(posix("").len(), 1);
    assert_eq!(posix("a/b/c").len(), 3);
    let p = posix("a/b/c");
    assert_eq!(p.last_n_components(2).unwrap().as_unix_str(), "b/c");
    assert_eq!(p.last_n_components(3).unwrap().as_unix_str(), "a/b/c");
    assert!(p.last_n_components(4).is_none());
    assert!(posix("").last_n_components(0).is_none());
    assert_eq!(posix("").last_n_components(1).unwrap().as_unix_str(), "");
}

#[test]
fn join_paths() {
    assert_eq!(posix("a").join(&posix("b/c")).as_unix_str(), "a/b/c");
    assert_eq!(posix("").join(&posix("b")).as_unix_str(), "b");
    assert_eq!(posix("a").join(&posix("")).as_unix_str(), "a");
    assert!(RelPath::empty().is_empty());
    assert_eq!(posix("q").into_arc().as_unix_str(), "q");
}

#[test]
fn path_buf_push_pop_and_extension() {
    let mut b = RelPathBuf::new();
    b.push(&posix("a"));
    b.push(&posix("b/c.txt"));
    assert_eq!(b.as_rel_path().as_unix_str(), "a/b/c.txt");
    assert!(b.set_extension("rs"));
    assert_eq!(b.as_rel_path().as_unix_str(), "a/b/c.rs");
    assert!(b.set_extension(""));
    assert_eq!(b.as_rel_path().as_unix_str(), "a/b/c");
    assert!(!b.set_extension("x/y"));
    assert!(b.pop());
    assert_eq!(b.as_rel_path().as_unix_str(), "a/b");
    assert!(b.pop());
    assert!(b.pop());
    assert!(!b.pop());
    assert_eq!(posix("z").to_rel_path_buf().as_rel_path().as_unix_str(), "z");
}

#[test]
fn equal_paths_compare_equal() {
    assert!(posix("a/./b") == posix("a/b"));
    assert!(posix("a/b") != posix("a/c"));
    let mut b = RelPathBuf::new();
    b.push(&posix("a/b"));
    assert!(b == posix("a/b").to_rel_path_buf());
}
