use infer_regex::{regex_from_pair, rule_from_blocks, MatchingBlock};

fn pattern(sample1: &str, sample2: &str) -> Option<String> {
    regex_from_pair(sample1, sample2).map(|t| t.as_str().to_string())
}

fn strings(parts: &[&str]) -> Vec<String> {
    parts.iter().map(|p| p.to_string()).collect()
}

fn block(first_start: usize, second_start: usize, size: usize) -> MatchingBlock {
    MatchingBlock { first_start, second_start, size }
}

#[test]
fn equal_samples_give_a_literal() {
    assert_eq!(pattern("abc.txt", "abc.txt"), Some(r"(?i)^abc\.txt$".to_string()));
}

#[test]
fn differing_numbers_give_a_number_slot() {
    assert_eq!(pattern("file 1.txt", "file 22.txt"), Some(r"(?i)^file (\d+)\.txt$".to_string()));
}

#[test]
fn differing_words_give_a_text_slot() {
    assert_eq!(
        pattern("picture of a bird.png", "picture of a dog.png"),
        Some(r"(?i)^picture of a (.+)\.png$".to_string())
    );
}

#[test]
fn number_beside_a_word_gives_a_text_slot() {
    assert_eq!(pattern("file 1.txt", "file one.txt"), Some(r"(?i)^file (.+)\.txt$".to_string()));
    assert_eq!(pattern("file one.txt", "file 1.txt"), Some(r"(?i)^file (.+)\.txt$".to_string()));
}

#[test]
fn difference_at_the_start_gives_a_slot() {
    assert_eq!(pattern("x.png", "y.png"), Some(r"(?i)^(.+)\.png$".to_string()));
}

#[test]
fn difference_at_the_end_gives_a_slot() {
    assert_eq!(pattern("abc 1", "abc 2"), Some(r"(?i)^abc (\d+)$".to_string()));
    assert_eq!(pattern("a b", "a c"), Some(r"(?i)^a (.+)$".to_string()));
}

#[test]
fn nothing_in_common_gives_no_template() {
    assert_eq!(pattern("fwip", "clunk"), None);
    assert_eq!(pattern("picture of a bird.png", "auugh"), None);
    assert_eq!(pattern("a", ""), None);
}

#[test]
fn two_whole_numbers_give_a_number_slot() {
    assert_eq!(pattern("12", "345"), Some(r"(?i)^(\d+)$".to_string()));
}

#[test]
fn number_slot_stops_at_sixteen_bits() {
    assert_eq!(pattern("v65535", "v1"), Some(r"(?i)^v(\d+)$".to_string()));
    assert_eq!(pattern("v65536", "v1"), Some(r"(?i)^v(.+)$".to_string()));
    assert_eq!(pattern("v1", "v65536"), Some(r"(?i)^v(.+)$".to_string()));
    assert_eq!(pattern("v99999999999999999999999999", "v1"), Some(r"(?i)^v(.+)$".to_string()));
}

#[test]
fn leading_zeros_do_not_count() {
    assert_eq!(pattern("v0000000000000000000000001", "v2"), Some(r"(?i)^v(\d+)$".to_string()));
    assert_eq!(pattern("s1e01", "s1e02"), Some(r"(?i)^s1e(\d+)$".to_string()));
}

#[test]
fn signed_number_is_text() {
    assert_eq!(pattern("a+5b", "a7b"), Some(r"(?i)^a(.+)b$".to_string()));
    assert_eq!(pattern("a-5b", "a7b"), Some(r"(?i)^a(.+)b$".to_string()));
}

#[test]
fn gap_on_one_side_only_gives_no_template() {
    assert_eq!(pattern("a b c", "a c"), None);
    assert_eq!(pattern("a c", "a b c"), None);
    assert_eq!(pattern("[1080p] episode s1e01 - dog (chien).mkv", "Bonus Episode.mkv"), None);
}

#[test]
fn gap_on_one_side_at_the_start_is_allowed() {
    assert_eq!(pattern("x a", "a"), Some(r"(?i)^(.+)a$".to_string()));
    assert_eq!(pattern("a", "x a"), Some(r"(?i)^a$".to_string()));
}

#[test]
fn gap_on_one_side_at_the_end_is_allowed() {
    assert_eq!(pattern("abc", "abc def"), Some(r"(?i)^abc$".to_string()));
    assert_eq!(pattern("abc def", "abc"), Some(r"(?i)^abc(.+)$".to_string()));
}

#[test]
fn empty_first_sample_gives_the_empty_template() {
    assert_eq!(pattern("", "abc"), Some("(?i)^$".to_string()));
    assert_eq!(pattern("", ""), Some("(?i)^$".to_string()));
}

#[test]
fn literal_is_taken_in_lower_case() {
    assert_eq!(pattern("Item", "ITEM"), Some("(?i)^item$".to_string()));
    assert_eq!(
        pattern("Item number 1.txt", "item Number 2.txt"),
        Some(r"(?i)^item number (\d+)\.txt$".to_string())
    );
}

#[test]
fn every_meta_character_is_escaped() {
    let literal = r"\.+*?()|[]{}^$#&-~";
    assert_eq!(
        pattern(literal, literal),
        Some(r"(?i)^\\\.\+\*\?\(\)\|\[\]\{\}\^\$\#\&\-\~$".to_string())
    );
}

#[test]
fn other_signs_are_not_escaped() {
    assert_eq!(pattern("a@b%c/d!e", "a@b%c/d!e"), Some("(?i)^a@b%c/d!e$".to_string()));
}

#[test]
fn escaped_literal_matches_itself_and_nothing_else() {
    let literal = r"a.b+c*d?(e)|[f]{g}^h$i#j&k-l~m\n";
    let template = regex_from_pair(literal, literal).unwrap();
    assert!(template.is_match(literal));
    assert!(!template.is_match(r"aXb+c*d?(e)|[f]{g}^h$i#j&k-l~m\n"));
    assert!(!template.is_match(r"a.bbc*d?(e)|[f]{g}^h$i#j&k-l~m\n"));
    let compiled = regex::Regex::new(template.as_str()).unwrap();
    assert!(compiled.is_match(literal));
}

#[test]
fn number_slot_takes_digits_only() {
    let template = regex_from_pair("file 1.txt", "file 2.txt").unwrap();
    assert_eq!(template.as_str(), r"(?i)^file (\d+)\.txt$");
    assert!(template.is_match("file 1.txt"));
    assert!(template.is_match("file 65536.txt"));
    assert!(!template.is_match("file 1a.txt"));
    assert!(!template.is_match("file x.txt"));
    assert!(!template.is_match("file .txt"));
    assert!(!template.is_match("file +1.txt"));
}

#[test]
fn text_slot_takes_at_least_one_character() {
    let template = regex_from_pair("x.png", "y.png").unwrap();
    assert!(template.is_match("anything at all.png"));
    assert!(!template.is_match(".png"));
}

#[test]
fn template_matches_whole_text_only() {
    let template = regex_from_pair("abc.txt", "abc.txt").unwrap();
    assert!(template.is_match("abc.txt"));
    assert!(!template.is_match("abc.txt "));
    assert!(!template.is_match("xabc.txt"));
}

#[test]
fn template_ignores_case() {
    let template = regex_from_pair("Item number 1.txt", "item Number 2.txt").unwrap();
    assert!(template.is_match("Item number 1.txt"));
    assert!(template.is_match("item number 1.txt"));
    assert!(template.is_match("ITEM NUMBER 30.TXT"));
}

#[test]
fn template_matches_both_samples() {
    for (sample1, sample2) in [
        ("[1080p] Episode S1E01.mkv", "[1080p] Episode S2E10.mkv"),
        ("firstname.lastname@gmail.com", "john.doe@gmail.com"),
        ("picture of a bird.png", "my wallpaper.png"),
        ("abc 1", "abc 2"),
        ("a+5b", "a7b"),
    ] {
        let template = regex_from_pair(sample1, sample2).unwrap();
        assert!(template.is_match(sample1));
        assert!(template.is_match(sample2));
    }
}

#[test]
fn rule_follows_the_blocks() {
    let first = strings(&["a", "1"]);
    let second = strings(&["a", "2"]);
    let blocks = vec![block(0, 0, 1), block(2, 2, 0)];
    assert_eq!(rule_from_blocks(&first, &second, &blocks), Some(r"a(\d+)".to_string()));
}

#[test]
fn rule_of_equal_sequences_is_the_literal() {
    let first = strings(&["a", ".", "b"]);
    let blocks = vec![block(0, 0, 3), block(3, 3, 0)];
    assert_eq!(rule_from_blocks(&first, &first, &blocks), Some(r"a\.b".to_string()));
}

#[test]
fn rule_of_a_single_text_slot_is_refused() {
    let first = strings(&["a"]);
    let second = strings(&["b"]);
    let blocks = vec![block(1, 1, 0)];
    assert_eq!(rule_from_blocks(&first, &second, &blocks), None);
}

#[test]
fn rule_with_slots_on_both_ends() {
    let first = strings(&["x", " ", "mid", " ", "7"]);
    let second = strings(&["y", " ", "mid", " ", "8"]);
    let blocks = vec![block(1, 1, 3), block(5, 5, 0)];
    assert_eq!(rule_from_blocks(&first, &second, &blocks), Some(r"(.+) mid (\d+)".to_string()));
}

#[test]
fn rule_stops_at_a_gap_on_one_side() {
    let first = strings(&["a", " ", "b", " ", "c"]);
    let second = strings(&["a", " ", "c"]);
    let blocks = vec![block(0, 0, 2), block(4, 2, 1), block(5, 3, 0)];
    assert_eq!(rule_from_blocks(&first, &second, &blocks), None);
}

#[test]
fn rule_of_empty_sequences_is_empty() {
    let none: Vec<String> = Vec::new();
    let blocks = vec![block(0, 0, 0)];
    assert_eq!(rule_from_blocks(&none, &none, &blocks), Some(String::new()));
}
