use kiwix_catalog::text::{chars_of, ends_with, eq_ignore_ascii_case, same_text, starts_with};

#[test]
fn chars_of_lists_the_characters() {
    assert_eq!(chars_of("héllo"), vec!['h', 'é', 'l', 'l', 'o']);
    assert!(chars_of("").is_empty());
}

#[test]
fn same_text_is_exact() {
    assert!(same_text("gentoo", "gentoo"));
    assert!(!same_text("gentoo", "Gentoo"));
    assert!(!same_text("gentoo", "gentoo "));
    assert!(same_text("", ""));
}

#[test]
fn eq_ignore_ascii_case_agrees_with_std() {
    let samples = ["", "teded", "TedEd", "TEDMED", "tedme", "Straße", "STRASSE", "straße", "É", "é", "a[", "a{", "@", "`"];
    for a in samples {
        for b in samples {
            assert_eq!(eq_ignore_ascii_case(a, b), a.eq_ignore_ascii_case(b), "{a:?} {b:?}");
        }
    }
}

#[test]
fn starts_with_agrees_with_std() {
    let samples = ["", "zimgit", "zimgit-food", "zimgi", "Zimgit", "avanti", "xzimgit", "é", "éa"];
    for a in samples {
        for b in samples {
            assert_eq!(starts_with(a, b), a.starts_with(b), "{a:?} {b:?}");
        }
    }
}

#[test]
fn ends_with_agrees_with_std() {
    let samples = ["", "stackexchange.com", "unix.stackexchange.com", "stackexchange.co", "stackexchange.com.", "é", "aé"];
    for a in samples {
        for b in samples {
            assert_eq!(ends_with(a, b), a.ends_with(b), "{a:?} {b:?}");
        }
    }
}
