use listing_file_server::listing::{
    entry_names, entry_precedes, list, DirectoryEntry, DirectoryUnreadable, EntryUnreadable,
    Enumeration,
};
use listing_file_server::text::{chars_le, chars_of, str_le, string_of};

fn dir(name: &str) -> DirectoryEntry {
    DirectoryEntry { name: name.to_string(), is_directory: true }
}

fn file(name: &str) -> DirectoryEntry {
    DirectoryEntry { name: name.to_string(), is_directory: false }
}

fn found(entries: Vec<DirectoryEntry>) -> Enumeration {
    Ok(entries.into_iter().map(Ok).collect())
}

fn names_of(entries: Vec<DirectoryEntry>) -> Vec<String> {
    entry_names(&list(found(entries)).unwrap())
}

#[test]
fn directories_first_each_group_by_name() {
    assert_eq!(names_of(vec![dir("B"), file("A"), dir("C")]), vec!["B/", "C/", "A"]);
}

#[test]
fn listing_does_not_depend_on_enumeration_order() {
    let expected = vec!["B/", "C/", "A"];
    assert_eq!(names_of(vec![file("A"), dir("B"), dir("C")]), expected);
    assert_eq!(names_of(vec![dir("C"), dir("B"), file("A")]), expected);
    assert_eq!(names_of(vec![dir("C"), file("A"), dir("B")]), expected);
    assert_eq!(names_of(vec![file("A"), dir("C"), dir("B")]), expected);
    assert_eq!(names_of(vec![dir("B"), dir("C"), file("A")]), expected);
}

#[test]
fn listing_twice_gives_the_same_sequence() {
    let entries = vec![file("z.txt"), dir("img"), file("a.txt"), dir("css"), file("m.txt")];
    let first = list(found(entries.clone())).unwrap();
    let second = list(found(entries)).unwrap();
    assert_eq!(first, second);
    assert_eq!(first, vec![dir("css"), dir("img"), file("a.txt"), file("m.txt"), file("z.txt")]);
}

#[test]
fn case_is_not_folded() {
    assert_eq!(names_of(vec![file("b"), file("B"), file("a"), file("A")]), vec!["A", "B", "a", "b"]);
    assert_eq!(names_of(vec![dir("b"), dir("Z")]), vec!["Z/", "b/"]);
}

#[test]
fn directories_go_by_their_own_names() {
    assert_eq!(names_of(vec![dir("foo.d"), dir("foo"), dir("foo-bar")]), vec!["foo/", "foo-bar/", "foo.d/"]);
}

#[test]
fn prefix_comes_before_its_extension() {
    assert_eq!(names_of(vec![file("ab"), file("a"), file("abc")]), vec!["a", "ab", "abc"]);
}

#[test]
fn same_name_as_file_and_directory_both_stay() {
    assert_eq!(names_of(vec![file("x"), dir("x")]), vec!["x/", "x"]);
}

#[test]
fn repeated_entries_are_kept() {
    assert_eq!(names_of(vec![file("x"), file("x")]), vec!["x", "x"]);
}

#[test]
fn empty_directory_has_an_empty_listing() {
    assert_eq!(list(found(vec![])), Ok(vec![]));
    assert_eq!(entry_names(&vec![]), Vec::<String>::new());
}

#[test]
fn unreadable_entries_are_left_out() {
    let read = Ok(vec![Ok(file("b")), Err(EntryUnreadable), Ok(dir("a")), Err(EntryUnreadable)]);
    assert_eq!(list(read), Ok(vec![dir("a"), file("b")]));
    assert_eq!(list(Ok(vec![Err(EntryUnreadable)])), Ok(vec![]));
}

#[test]
fn unreadable_directory_fails() {
    assert_eq!(list(Err(DirectoryUnreadable)), Err(DirectoryUnreadable));
}

#[test]
fn shown_name_of_a_directory_ends_with_a_separator() {
    assert_eq!(entry_names(&vec![dir("docs"), file("docs")]), vec!["docs/", "docs"]);
    assert_eq!(entry_names(&vec![dir("")]), vec!["/"]);
}

#[test]
fn entry_order_one_pair_at_a_time() {
    assert!(entry_precedes(&dir("z"), &file("a")));
    assert!(!entry_precedes(&file("a"), &dir("z")));
    assert!(entry_precedes(&dir("a"), &dir("b")));
    assert!(!entry_precedes(&dir("b"), &dir("a")));
    assert!(entry_precedes(&file("a"), &file("a")));
    assert!(entry_precedes(&file(""), &file("a")));
    assert!(!entry_precedes(&file("a"), &file("")));
}

#[test]
fn text_order_exact_values() {
    assert!(str_le("", ""));
    assert!(str_le("", "a"));
    assert!(!str_le("a", ""));
    assert!(str_le("a", "a"));
    assert!(str_le("a", "b"));
    assert!(!str_le("b", "a"));
    assert!(str_le("Z", "a"));
    assert!(!str_le("a", "Z"));
    assert!(str_le("abc", "abd"));
    assert!(str_le("ab", "abc"));
    assert!(!str_le("abc", "ab"));
    assert!(str_le("a-b", "a.b"));
    assert!(str_le("z", "\u{e9}"));
    assert!(!str_le("\u{e9}", "z"));
    assert!(str_le("\u{e9}", "\u{65e5}"));
    assert!(str_le("\u{ffff}", "\u{10000}"));
}

#[test]
fn text_order_agrees_with_the_order_of_strings() {
    let samples = ["", "A", "B", "a", "ab", "abc", "b", "foo", "foo-bar", "foo.d", "\u{e9}", "\u{10000}"];
    for x in samples {
        for y in samples {
            assert_eq!(str_le(x, y), x <= y);
            assert_eq!(chars_le(&x.chars().collect(), &y.chars().collect()), x <= y);
        }
    }
}

#[test]
fn characters_round_trip() {
    assert_eq!(chars_of("a/\u{e9}"), vec!['a', '/', '\u{e9}']);
    assert_eq!(chars_of(""), Vec::<char>::new());
    assert_eq!(string_of(&vec!['a', '/', '\u{e9}']), "a/\u{e9}");
    assert_eq!(string_of(&vec![]), "");
}

#[test]
fn listing_agrees_with_sorting_by_kind_then_name() {
    let names = ["src", "README", "a", "Z", "docs", ".git", "foo.d", "foo", "foo-bar", "\u{e9}t\u{e9}", "b", ""];
    let mut entries = Vec::new();
    for (i, name) in names.iter().enumerate() {
        entries.push(DirectoryEntry { name: name.to_string(), is_directory: i % 3 == 0 });
        entries.push(DirectoryEntry { name: name.to_string(), is_directory: i % 2 == 0 });
    }
    let mut expected = entries.clone();
    expected.sort_by(|x, y| (!x.is_directory, &x.name).cmp(&(!y.is_directory, &y.name)));
    assert_eq!(list(found(entries.clone())), Ok(expected.clone()));
    entries.reverse();
    assert_eq!(list(found(entries)), Ok(expected));
}
