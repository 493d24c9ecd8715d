use listing_file_server::path::{
    append_component, resolve_path, resolve_windows_path, segment_accepted,
    windows_segment_accepted,
};

fn segments(parts: &[&str]) -> Vec<String> {
    parts.iter().map(|p| p.to_string()).collect()
}

#[test]
fn joins_segments_below_the_root() {
    let path = resolve_path("root", &segments(&["docs", "guide", "a.txt"]), false);
    assert_eq!(path, Some("root/docs/guide/a.txt".to_string()));
}

#[test]
fn no_segments_resolve_to_the_root() {
    assert_eq!(resolve_path("/srv/www", &segments(&[]), false), Some("/srv/www".to_string()));
}

#[test]
fn root_with_closing_separator_gets_no_second_one() {
    assert_eq!(resolve_path("/srv/www/", &segments(&["a"]), false), Some("/srv/www/a".to_string()));
    assert_eq!(resolve_path("/", &segments(&["a", "b"]), false), Some("/a/b".to_string()));
}

#[test]
fn empty_root_gives_a_relative_path() {
    assert_eq!(resolve_path("", &segments(&["a", "b"]), false), Some("a/b".to_string()));
}

#[test]
fn empty_segment_adds_only_a_separator() {
    assert_eq!(resolve_path("root", &segments(&["a", ""]), false), Some("root/a/".to_string()));
    assert_eq!(resolve_path("root", &segments(&["", "a"]), false), Some("root/a".to_string()));
}

#[test]
fn parent_segment_is_no_match_whatever_dot_files() {
    for allow in [false, true] {
        assert_eq!(resolve_path("root", &segments(&[".."]), allow), None);
        assert_eq!(resolve_path("root", &segments(&["..", "etc", "passwd"]), allow), None);
        assert_eq!(resolve_path("root", &segments(&["docs", ".."]), allow), None);
        assert_eq!(resolve_path("root", &segments(&["docs", "..", "img"]), allow), None);
    }
}

#[test]
fn traversal_out_of_the_root_is_no_match() {
    let request = segments(&["docs", "..", "..", "etc", "passwd"]);
    assert_eq!(resolve_path("root", &request, false), None);
    assert_eq!(resolve_path("root", &request, true), None);
}

#[test]
fn dot_files_need_the_switch() {
    let request = segments(&["a", ".git", "config"]);
    assert_eq!(resolve_path("root", &request, false), None);
    assert_eq!(resolve_path("root", &request, true), Some("root/a/.git/config".to_string()));
}

#[test]
fn single_dot_is_a_dot_file() {
    assert_eq!(resolve_path("root", &segments(&["."]), false), None);
    assert_eq!(resolve_path("root", &segments(&["."]), true), Some("root/.".to_string()));
}

#[test]
fn three_dots_are_a_dot_file_not_a_parent() {
    assert!(!segment_accepted("...", false));
    assert!(segment_accepted("...", true));
}

#[test]
fn segment_rules_one_by_one() {
    for allow in [false, true] {
        assert!(segment_accepted("docs", allow));
        assert!(segment_accepted("", allow));
        assert!(segment_accepted("a.b", allow));
        assert!(segment_accepted("a*", allow));
        assert!(segment_accepted("a:b", allow));
        assert!(segment_accepted("<a", allow));
        assert!(segment_accepted("a\\b", allow));
        assert!(!segment_accepted("..", allow));
        assert!(!segment_accepted("*", allow));
        assert!(!segment_accepted("*a", allow));
        assert!(!segment_accepted("a:", allow));
        assert!(!segment_accepted("a>", allow));
        assert!(!segment_accepted("a<", allow));
        assert!(!segment_accepted("/", allow));
        assert!(!segment_accepted("/etc", allow));
        assert!(!segment_accepted("a/b", allow));
        assert!(!segment_accepted("a/", allow));
    }
    assert!(!segment_accepted(".hidden", false));
    assert!(segment_accepted(".hidden", true));
}

#[test]
fn absolute_segment_is_no_match() {
    assert_eq!(resolve_path("root", &segments(&["/etc", "passwd"]), true), None);
    assert_eq!(resolve_path("root", &segments(&["docs", "a/../../b"]), true), None);
}

#[test]
fn rejection_does_not_depend_on_the_place() {
    assert_eq!(resolve_path("root", &segments(&["ok", "fine", "bad:"]), true), None);
    assert_eq!(resolve_path("root", &segments(&["*bad", "fine"]), true), None);
}

#[test]
fn non_ascii_segments_pass() {
    assert_eq!(
        resolve_path("root", &segments(&["caf\u{e9}", "\u{65e5}\u{672c}"]), false),
        Some("root/caf\u{e9}/\u{65e5}\u{672c}".to_string())
    );
}

#[test]
fn append_component_puts_one_separator() {
    let mut path = String::from("a");
    append_component(&mut path, "b");
    assert_eq!(path, "a/b");
    let mut path = String::from("a/");
    append_component(&mut path, "b");
    assert_eq!(path, "a/b");
    let mut path = String::new();
    append_component(&mut path, "b");
    assert_eq!(path, "b");
    let mut path = String::from("a");
    append_component(&mut path, "");
    assert_eq!(path, "a/");
}

#[test]
fn windows_rules_add_backslash_and_colon() {
    for allow in [false, true] {
        assert!(windows_segment_accepted("docs", allow));
        assert!(windows_segment_accepted("a.b", allow));
        assert!(windows_segment_accepted("", allow));
        assert!(!windows_segment_accepted("a\\b", allow));
        assert!(!windows_segment_accepted("\\", allow));
        assert!(!windows_segment_accepted("..\\x", allow));
        assert!(!windows_segment_accepted("a:b", allow));
        assert!(!windows_segment_accepted("C:", allow));
        assert!(!windows_segment_accepted("..", allow));
        assert!(!windows_segment_accepted("a/b", allow));
        assert!(!windows_segment_accepted("*a", allow));
        assert!(!windows_segment_accepted("a>", allow));
    }
    assert!(!windows_segment_accepted(".hidden", false));
    assert!(windows_segment_accepted(".hidden", true));
}

#[test]
fn windows_resolution_joins_as_elsewhere() {
    assert_eq!(
        resolve_windows_path("C:\\www", &segments(&["docs", "a.txt"]), false),
        Some("C:\\www/docs/a.txt".to_string())
    );
    assert_eq!(resolve_windows_path("root", &segments(&[]), false), Some("root".to_string()));
    assert_eq!(resolve_windows_path("root", &segments(&["a", "..\\..\\b"]), true), None);
    assert_eq!(resolve_windows_path("root", &segments(&["a", "b:c"]), true), None);
    assert_eq!(resolve_windows_path("root", &segments(&["a", ".."]), true), None);
}
