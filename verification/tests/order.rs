//! The canonical order of usernames.

use double_blind::chars::{char_is_space, chars_of, same_text};
use double_blind::order::{canonical_usernames, name_precedes};

fn names(list: &[&str]) -> Vec<String> {
    list.iter().map(|name| name.to_string()).collect()
}

#[test]
fn names_are_ordered_by_their_first_difference() {
    assert!(name_precedes("alice", "bob"));
    assert!(!name_precedes("bob", "alice"));
    assert!(name_precedes("alice", "alicf"));
    assert!(name_precedes("Zed", "alice"));
    assert!(name_precedes("a-b", "ab"));
}

#[test]
fn a_prefix_comes_first() {
    assert!(name_precedes("", "a"));
    assert!(name_precedes("ali", "alice"));
    assert!(!name_precedes("alice", "ali"));
}

#[test]
fn no_name_comes_before_itself() {
    assert!(!name_precedes("", ""));
    assert!(!name_precedes("alice", "alice"));
}

#[test]
fn the_order_is_that_of_the_code_points() {
    assert!(name_precedes("z", "\u{e9}"));
    assert!(name_precedes("\u{e9}", "\u{1f600}"));
    assert!(name_precedes("\u{ffff}", "\u{10000}"));
    let mut sorted = names(&["\u{10000}", "z", "\u{e9}", "\u{ffff}", "a"]);
    sorted.sort();
    assert_eq!(canonical_usernames(&names(&["\u{10000}", "z", "\u{e9}", "\u{ffff}", "a"])), sorted);
}

#[test]
fn the_canonical_list_is_sorted_and_holds_each_name_once() {
    assert_eq!(
        canonical_usernames(&names(&["carol", "alice", "bob", "alice", "carol"])),
        names(&["alice", "bob", "carol"])
    );
    assert_eq!(canonical_usernames(&names(&[])), names(&[]));
    assert_eq!(canonical_usernames(&names(&["x"])), names(&["x"]));
}

#[test]
fn every_order_of_the_names_gives_the_same_list() {
    let orders = [
        ["a", "b", "c"],
        ["a", "c", "b"],
        ["b", "a", "c"],
        ["b", "c", "a"],
        ["c", "a", "b"],
        ["c", "b", "a"],
    ];
    for order in orders.iter() {
        assert_eq!(canonical_usernames(&names(order)), names(&["a", "b", "c"]));
    }
}

#[test]
fn texts_are_compared_character_by_character() {
    assert!(same_text("", ""));
    assert!(same_text("done", "done"));
    assert!(!same_text("done", "don"));
    assert!(!same_text("don", "done"));
    assert!(!same_text("done", "dome"));
}

#[test]
fn the_characters_of_a_text_come_in_order() {
    assert_eq!(chars_of("a\u{e9}b"), vec!['a', '\u{e9}', 'b']);
    assert_eq!(chars_of(""), Vec::<char>::new());
}

#[test]
fn whitespace_is_what_the_standard_library_calls_whitespace() {
    for code in 0u32..0x11000 {
        if let Some(c) = char::from_u32(code) {
            assert_eq!(char_is_space(c), c.is_whitespace());
        }
    }
}
