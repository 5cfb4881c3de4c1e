use librarylink::locator::{Locator, LocatorStep, ProcessTable};
use librarylink::path::{file_name_from_path, get_directory_from_path, starts_with_chars};
use librarylink::process::ProcessInfo;

/// Whether a one-process search for `dir` adopts a process at `path`.
fn adopted(path: &str, dir: &str) -> bool {
    let mut loc = Locator::new(&ProcessTable::Listed(vec![42], 4), dir);
    loc.offer(&Some(ProcessInfo::from_path(path.to_string())));
    matches!(loc.step(), LocatorStep::Found(42))
}

#[test]
fn file_name_is_last_segment() {
    assert_eq!(file_name_from_path("C:\\Apps\\Foo\\foo.exe"), "foo.exe");
}

#[test]
fn file_name_without_separator_is_whole_path() {
    assert_eq!(file_name_from_path("foo.exe"), "foo.exe");
    assert_eq!(file_name_from_path(""), "");
}

#[test]
fn file_name_after_trailing_separator_is_empty() {
    assert_eq!(file_name_from_path("C:\\Apps\\"), "");
}

#[test]
fn directory_is_prefix_before_last_separator() {
    assert_eq!(get_directory_from_path("C:\\Apps\\Foo\\foo.exe"), "C:\\Apps\\Foo");
    assert_eq!(get_directory_from_path("C:\\foo.exe"), "C:");
}

#[test]
fn directory_without_separator_is_whole_path() {
    assert_eq!(get_directory_from_path("foo.exe"), "foo.exe");
}

#[test]
fn prefix_compare_is_exact_on_characters() {
    assert!(starts_with_chars("abcdef", "abc"));
    assert!(starts_with_chars("abc", ""));
    assert!(!starts_with_chars("abc", "abcd"));
    assert!(!starts_with_chars("abc", "ABC"));
}

#[test]
fn directory_match_ignores_case() {
    assert!(adopted("C:\\APPS\\Foo\\foo.exe", "c:\\apps\\foo"));
    assert!(adopted("c:\\apps\\foo\\foo.exe", "C:\\Apps\\Foo"));
}

#[test]
fn directory_match_rejects_other_directories() {
    assert!(!adopted("C:\\Apps\\Bar\\bar.exe", "C:\\Apps\\Foo"));
    assert!(!adopted("C:\\Apps\\Foo\\foo.exe", "Z:\\nonexistent\\path"));
}
