use infer_regex::tokenize;

fn strings(parts: &[&str]) -> Vec<String> {
    parts.iter().map(|p| p.to_string()).collect()
}

#[test]
fn file_name_splits_into_words_numbers_and_signs() {
    assert_eq!(
        tokenize("[1080p] Episode S1E01.mkv"),
        strings(&["[", "1080", "p", "]", " ", "episode", " ", "s", "1", "e", "01", ".", "mkv"])
    );
}

#[test]
fn empty_text_has_no_tokens() {
    assert_eq!(tokenize(""), Vec::<String>::new());
}

#[test]
fn tokens_are_lower_case() {
    assert_eq!(tokenize("ABC"), strings(&["abc"]));
    assert_eq!(tokenize("Item Number"), strings(&["item", " ", "number"]));
}

#[test]
fn underscore_belongs_to_a_word() {
    assert_eq!(tokenize("a_b c"), strings(&["a_b", " ", "c"]));
    assert_eq!(tokenize("_"), strings(&["_"]));
}

#[test]
fn digits_and_letters_do_not_share_a_token() {
    assert_eq!(tokenize("abc123def"), strings(&["abc", "123", "def"]));
    assert_eq!(tokenize("7z"), strings(&["7", "z"]));
}

#[test]
fn every_other_character_is_a_token_of_its_own() {
    assert_eq!(tokenize("a, b"), strings(&["a", ",", " ", "b"]));
    assert_eq!(tokenize("  "), strings(&[" ", " "]));
    assert_eq!(tokenize("--"), strings(&["-", "-"]));
    assert_eq!(tokenize("\t\n"), strings(&["\t", "\n"]));
}

#[test]
fn written_out_digit_group_is_one_token() {
    assert_eq!(tokenize(r"(\d+)x"), strings(&[r"(\d+)", "x"]));
    assert_eq!(tokenize(r"s(\d+)e(\d+)"), strings(&["s", r"(\d+)", "e", r"(\d+)"]));
}

#[test]
fn escaped_digit_group_is_one_token() {
    assert_eq!(tokenize(r"\(\\d\+\)"), strings(&[r"\(\\d\+\)"]));
    assert_eq!(tokenize(r"a\\(\\\d\\+\\)b"), strings(&["a", r"\\(\\\d\\+\\)", "b"]));
}

#[test]
fn digit_group_needs_its_backslash() {
    assert_eq!(tokenize("(d+)"), strings(&["(", "d", "+", ")"]));
}

#[test]
fn digit_group_is_told_by_a_small_d() {
    assert_eq!(tokenize(r"(\D+)"), strings(&["(", "\\", "d", "+", ")"]));
}

#[test]
fn written_out_wildcard_group_is_one_token() {
    assert_eq!(tokenize("(.+)"), strings(&["(.+)"]));
    assert_eq!(tokenize(r"\(\.\+\)"), strings(&[r"\(\.\+\)"]));
    assert_eq!(tokenize(r"a (.+)\.png"), strings(&["a", " ", "(.+)", "\\", ".", "png"]));
}

#[test]
fn unfinished_group_falls_apart() {
    assert_eq!(tokenize(r"(\d+"), strings(&["(", "\\", "d", "+"]));
    assert_eq!(tokenize("(.+"), strings(&["(", ".", "+"]));
    assert_eq!(tokenize(r"(\d)"), strings(&["(", "\\", "d", ")"]));
}

#[test]
fn backslashes_alone_are_single_tokens() {
    assert_eq!(tokenize(r"\\x"), strings(&["\\", "\\", "x"]));
}

#[test]
fn letters_outside_ascii_make_words() {
    assert_eq!(tokenize("zèbre"), strings(&["zèbre"]));
    assert_eq!(tokenize("ÉCOLE 42"), strings(&["école", " ", "42"]));
    assert_eq!(tokenize("日本語.txt"), strings(&["日本語", ".", "txt"]));
}

#[test]
fn signs_outside_ascii_are_single_tokens() {
    assert_eq!(tokenize("z√®bre"), strings(&["z", "√", "®", "bre"]));
    assert_eq!(tokenize("a→b"), strings(&["a", "→", "b"]));
}

#[test]
fn digit_outside_ascii_is_a_token_of_its_own() {
    assert_eq!(tokenize("a٣b"), strings(&["a", "٣", "b"]));
    assert_eq!(tokenize("1٣2"), strings(&["1", "٣", "2"]));
}

#[test]
fn tokens_put_together_give_the_text_back() {
    for text in [
        "[1080p] episode s1e01 - dog (chien).mkv",
        "firstname.lastname@gmail.com",
        r"^\[1080p\] episode s(\d+)e(\d+) \- (.+) \((.+)\)\.mkv$",
        "a٣b __ 12  x",
        "",
    ] {
        assert_eq!(tokenize(text).concat(), text);
    }
}

#[test]
fn no_token_is_empty() {
    for text in ["a b", r"\\(\d+) (.+) \", "...", "x1y2"] {
        assert!(tokenize(text).iter().all(|token| !token.is_empty()));
    }
}
