use song_catalog::text::{
    blank, chars_of, contains, contains_chars, contains_in_order, find_from, split_chars,
    starts_at,
};

fn letters(text: &str) -> Vec<char> {
    text.chars().collect()
}

#[test]
fn chars_of_gives_the_characters() {
    assert_eq!(chars_of(""), Vec::<char>::new());
    assert_eq!(chars_of("abc"), vec!['a', 'b', 'c']);
    assert_eq!(chars_of("디맥 é"), vec!['디', '맥', ' ', 'é']);
}

#[test]
fn starts_at_compares_from_a_position() {
    let hay = letters("Rising Again");
    assert!(starts_at(&hay, &letters("Rising"), 0));
    assert!(starts_at(&hay, &letters("Again"), 7));
    assert!(!starts_at(&hay, &letters("Again"), 6));
    assert!(starts_at(&hay, &letters(""), 12));
    assert!(starts_at(&hay, &letters(""), 0));
    assert!(starts_at(&hay, &hay, 0));
}

#[test]
fn contains_finds_a_fragment_anywhere() {
    assert!(contains("Rising Again", "Rising"));
    assert!(contains("Rising Again", "Again"));
    assert!(contains("Rising Again", "g A"));
    assert!(contains("Rising Again", "n"));
    assert!(contains("Rising Again", "Rising Again"));
    assert!(!contains("Rising Again", "Rising Again "));
    assert!(!contains("Rising Again", "again"));
    assert!(!contains("Rising", "Rising Again"));
    assert!(!contains("aab", "abb"));
    assert!(contains("aaab", "aab"));
}

#[test]
fn contains_with_empty_texts() {
    assert!(contains("", ""));
    assert!(contains("abc", ""));
    assert!(!contains("", "a"));
    assert!(contains_chars(&letters("abc"), &letters("")));
    assert!(!contains_chars(&letters(""), &letters("abc")));
}

fn parts(texts: &[&str]) -> Vec<Vec<char>> {
    texts.iter().map(|t| letters(t)).collect()
}

#[test]
fn find_from_gives_the_first_position() {
    let hay = letters("abcabcab");
    assert_eq!(find_from(&hay, &letters("abc"), 0), Some(0));
    assert_eq!(find_from(&hay, &letters("abc"), 1), Some(3));
    assert_eq!(find_from(&hay, &letters("abc"), 4), None);
    assert_eq!(find_from(&hay, &letters("ab"), 4), Some(6));
    assert_eq!(find_from(&hay, &letters("ab"), 7), None);
    assert_eq!(find_from(&hay, &letters(""), 8), Some(8));
    assert_eq!(find_from(&hay, &letters(""), 9), None);
    assert_eq!(find_from(&hay, &letters("abcabcabc"), 0), None);
    assert_eq!(find_from(&hay, &letters("b"), usize::MAX), None);
}

#[test]
fn split_chars_cuts_at_each_separator() {
    assert_eq!(split_chars(&letters("a b"), ' '), parts(&["a", "b"]));
    assert_eq!(split_chars(&letters("Rising Again"), ' '), parts(&["Rising", "Again"]));
    assert_eq!(split_chars(&letters("abc"), ' '), parts(&["abc"]));
    assert_eq!(split_chars(&letters(""), ' '), parts(&[""]));
    assert_eq!(split_chars(&letters(" "), ' '), parts(&["", ""]));
    assert_eq!(split_chars(&letters("a  b"), ' '), parts(&["a", "", "b"]));
    assert_eq!(split_chars(&letters(" a "), ' '), parts(&["", "a", ""]));
    assert_eq!(split_chars(&letters("a,b c"), ','), parts(&["a", "b c"]));
}

#[test]
fn contains_in_order_takes_anything_between() {
    let hay = letters("Rising Again");
    assert!(contains_in_order(&hay, &parts(&["Rising", "Again"])));
    assert!(contains_in_order(&hay, &parts(&["Ris", "gain"])));
    assert!(contains_in_order(&hay, &parts(&["R", "i", "s", "i", "n", "g"])));
    assert!(contains_in_order(&hay, &parts(&["Rising", "", "Again"])));
    assert!(contains_in_order(&hay, &parts(&["", "Rising Again", ""])));
    assert!(contains_in_order(&hay, &parts(&[])));
    assert!(contains_in_order(&hay, &parts(&[""])));
    assert!(contains_in_order(&letters(""), &parts(&["", ""])));
}

#[test]
fn contains_in_order_keeps_the_order_and_does_not_overlap() {
    let hay = letters("Rising Again");
    assert!(!contains_in_order(&hay, &parts(&["Again", "Rising"])));
    assert!(!contains_in_order(&hay, &parts(&["Rising", "Rising"])));
    assert!(!contains_in_order(&hay, &parts(&["Rising ", " Again"])));
    assert!(!contains_in_order(&hay, &parts(&["Rising", "again"])));
    assert!(!contains_in_order(&hay, &parts(&["Again", "n"])));
    assert!(!contains_in_order(&letters("aba"), &parts(&["ab", "ba"])));
    assert!(contains_in_order(&letters("abba"), &parts(&["ab", "ba"])));
    assert!(!contains_in_order(&letters(""), &parts(&["a"])));
}

#[test]
fn blank_texts() {
    assert!(blank(&letters("")));
    assert!(blank(&letters(" ")));
    assert!(blank(&letters("    ")));
    assert!(!blank(&letters(" a ")));
    assert!(!blank(&letters("%")));
    assert!(!blank(&letters("\t")));
}
