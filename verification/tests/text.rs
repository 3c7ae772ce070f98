use website_compiler::text::{
    chars_of, contains, find, first_word_of, insert_at, lines_of, replace_all, splice, string_of,
    trim,
};

fn v(s: &str) -> Vec<char> {
    s.chars().collect()
}

fn replace(hay: &str, from: &str, to: &str) -> String {
    string_of(&replace_all(&v(hay), &v(from), &v(to)))
}

#[test]
fn conversions_keep_the_characters() {
    assert_eq!(chars_of("a\u{e9}\u{1F600}z"), v("a\u{e9}\u{1F600}z"));
    assert_eq!(string_of(&v("a\u{e9}\u{1F600}z")), "a\u{e9}\u{1F600}z");
    assert_eq!(string_of(&chars_of("")), "");
}

#[test]
fn replace_all_replaces_from_the_left() {
    assert_eq!(replace("aaa", "aa", "b"), "ba");
    assert_eq!(replace("abcabc", "bc", "-"), "a-a-");
    assert_eq!(replace("abc", "x", "y"), "abc");
    assert_eq!(replace("aab", "ab", "b"), "ab");
    assert_eq!(replace("", "x", "y"), "");
    assert_eq!(replace("abc", "abc", ""), "");
}

#[test]
fn replace_all_with_an_empty_needle_puts_in_everywhere() {
    assert_eq!(replace("abc", "", "-"), "-a-b-c-");
    assert_eq!(replace("", "", "-"), "-");
}

#[test]
fn find_gives_the_leftmost_position() {
    assert_eq!(find(&v("xxabxxab"), &v("ab")), Some(2));
    assert_eq!(find(&v("xxabxxab"), &v("ba")), None);
    assert_eq!(find(&v("abc"), &v("")), Some(0));
    assert_eq!(find(&v(""), &v("")), Some(0));
    assert!(contains(&v("hello"), &v("ell")));
    assert!(!contains(&v("hello"), &v("elo")));
}

#[test]
fn insert_puts_the_piece_before_the_position() {
    assert_eq!(string_of(&insert_at(&v("abcd"), 2, &v("--"))), "ab--cd");
    assert_eq!(string_of(&insert_at(&v("abcd"), 0, &v("-"))), "-abcd");
    assert_eq!(string_of(&insert_at(&v("abcd"), 4, &v("-"))), "abcd-");
}

#[test]
fn first_word_and_trim_know_unicode_space() {
    assert_eq!(string_of(&first_word_of(&v("  button arg1=\"value\"  "))), "button");
    assert_eq!(string_of(&first_word_of(&v("\u{2003}\t a\u{a0}b"))), "a");
    assert_eq!(string_of(&first_word_of(&v(" \n "))), "");
    assert_eq!(string_of(&trim(&v("\u{3000} a b \r\n"))), "a b");
    assert_eq!(string_of(&trim(&v("   "))), "");
    assert_eq!(string_of(&trim(&v("\u{200b}x"))), "\u{200b}x");
}

#[test]
fn lines_end_at_line_feeds() {
    let lines: Vec<String> = lines_of(&v("a\r\nb\n\nc")).iter().map(|l| string_of(l)).collect();
    assert_eq!(lines, vec!["a", "b", "", "c"]);
}

#[test]
fn splice_takes_the_pieces_in_order() {
    let swaps = vec![(v("ab"), v("1")), (v("ab"), v("2")), (v("zz"), v("3")), (v("ab"), v("4"))];
    assert_eq!(string_of(&splice(&v("xabyabwab"), &swaps)), "x1y2wab");
    assert_eq!(string_of(&splice(&v("plain"), &vec![])), "plain");
}
