use bwfs::name_table::NameTable;
use bwfs::names::{
    decimal_text, prohibited, rank_names, same_text, sanitize_name, split_path, starts_with,
    to_chars, Rank,
};

#[test]
fn sanitize_strips_prohibited_characters() {
    assert_eq!(sanitize_name("a/b\\c?d%e*f:g|h\"i<j>k.l"), "abcdefghijkl");
    assert_eq!(sanitize_name("plain name"), "plain name");
    assert_eq!(sanitize_name("../../etc"), "etc");
    assert_eq!(sanitize_name(""), "");
    assert_eq!(sanitize_name("..."), "");
    assert_eq!(sanitize_name("na\u{ef}ve/caf\u{e9}"), "na\u{ef}vecaf\u{e9}");
    let once = sanitize_name("x:y/z");
    assert_eq!(sanitize_name(&once), once);
}

#[test]
fn prohibited_characters_are_the_eleven() {
    for c in ['/', '\\', '?', '%', '*', ':', '|', '"', '<', '>', '.'] {
        assert!(prohibited(c));
    }
    for c in ['a', ' ', '-', '_', '0', '\u{e9}', '\'', '&'] {
        assert!(!prohibited(c));
    }
}

#[test]
fn split_path_follows_separators() {
    assert_eq!(split_path("Work/Email"), vec!["Work", "Email"]);
    assert_eq!(split_path("Work"), vec!["Work"]);
    assert_eq!(split_path(""), vec![""]);
    assert_eq!(split_path("a/"), vec!["a", ""]);
    assert_eq!(split_path("/a"), vec!["", "a"]);
    assert_eq!(split_path("a//b"), vec!["a", "", "b"]);
    assert_eq!(split_path("a/b/c").join("/"), "a/b/c");
}

#[test]
fn starts_with_tests_prefixes() {
    assert!(starts_with("Work/Email", "Work"));
    assert!(starts_with("Work", "Work"));
    assert!(starts_with("Work", ""));
    assert!(!starts_with("Wor", "Work"));
    assert!(!starts_with("Personal", "Work"));
    assert!(!starts_with("work", "Work"));
    assert!(starts_with("\u{e9}t\u{e9}", "\u{e9}t"));
}

#[test]
fn names_rank_by_their_bytes() {
    assert_eq!(rank_names("a", "b"), Rank::Before);
    assert_eq!(rank_names("b", "a"), Rank::After);
    assert_eq!(rank_names("a", "a"), Rank::Same);
    assert_eq!(rank_names("a", "ab"), Rank::Before);
    assert_eq!(rank_names("ab", "a"), Rank::After);
    assert_eq!(rank_names("", "a"), Rank::Before);
    assert_eq!(rank_names("", ""), Rank::Same);
    assert_eq!(rank_names("Z", "a"), Rank::Before);
    assert_eq!(rank_names("z", "\u{e9}"), Rank::Before);
    for (a, b) in [("a", "b"), ("Zeta", "alpha"), ("x", "x"), ("\u{e9}", "z"), ("10", "9")] {
        let want = match a.cmp(b) {
            std::cmp::Ordering::Less => Rank::Before,
            std::cmp::Ordering::Equal => Rank::Same,
            std::cmp::Ordering::Greater => Rank::After,
        };
        assert_eq!(rank_names(a, b), want);
    }
    assert!(same_text("abc", "abc"));
    assert!(!same_text("abc", "abd"));
}

#[test]
fn chars_and_numerals() {
    assert_eq!(to_chars("h\u{e9}"), vec!['h', '\u{e9}']);
    assert_eq!(decimal_text(0), "0");
    assert_eq!(decimal_text(7), "7");
    assert_eq!(decimal_text(10), "10");
    assert_eq!(decimal_text(1905), "1905");
    assert_eq!(decimal_text(u64::MAX), "18446744073709551615");
}

#[test]
fn name_table_keeps_names_in_order() {
    let mut t = NameTable::new();
    assert_eq!(t.len(), 0);
    assert_eq!(t.get("a"), None);
    assert_eq!(t.insert("m".to_owned(), 1), None);
    assert_eq!(t.insert("a".to_owned(), 2), None);
    assert_eq!(t.insert("z".to_owned(), 3), None);
    assert_eq!(t.insert("b".to_owned(), 4), None);
    assert_eq!(t.insert("m".to_owned(), 5), Some(1));
    assert_eq!(t.len(), 4);
    let listed: Vec<(String, u64)> =
        (0..t.len()).map(|i| (t.entry(i).0.clone(), t.entry(i).1)).collect();
    assert_eq!(
        listed,
        vec![("a".to_owned(), 2), ("b".to_owned(), 4), ("m".to_owned(), 5), ("z".to_owned(), 3)]
    );
    assert_eq!(t.get("m"), Some(5));
    assert_eq!(t.get("z"), Some(3));
    assert_eq!(t.get("y"), None);
}
