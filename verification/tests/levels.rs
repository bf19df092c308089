use itertools::Itertools;
use rbmstable_parser::levels::derive_levels;
use rbmstable_parser::order::{compare_levels, parse_level, precedes, text_precedes};
use rbmstable_parser::sorting::{place_levels, sort_levels};
use std::cmp::Ordering;
use rbmstable_parser::DifficultTableElement;

fn chart(level: &str) -> DifficultTableElement {
    DifficultTableElement {
        title: format!("title of {level}"),
        artist: String::from("artist"),
        md5: String::from("0123456789abcdef0123456789abcdef"),
        sha256: String::new(),
        mode: String::new(),
        level: level.to_string(),
        diff_name: String::new(),
        info: String::new(),
        bms_id: String::new(),
    }
}

fn charts(levels: &[&str]) -> Vec<DifficultTableElement> {
    levels.iter().map(|level| chart(level)).collect()
}

fn labels(levels: &[&str]) -> Vec<String> {
    levels.iter().map(|level| level.to_string()).collect()
}

fn chars(text: &str) -> Vec<char> {
    text.chars().collect()
}

#[test]
fn numeric_levels_go_up_by_number() {
    let index = derive_levels(&charts(&["3", "1", "10", "2"]));
    assert_eq!(index, labels(&["1", "2", "3", "10"]));
}

#[test]
fn a_symbol_is_placed_as_text() {
    let index = derive_levels(&charts(&["1", "a", "2"]));
    assert_eq!(index, labels(&["1", "2", "a"]));
}

#[test]
fn question_marks_stand_behind_the_numbers() {
    let index = derive_levels(&charts(&["???", "25", "0", "24", "3"]));
    assert_eq!(index, labels(&["0", "3", "24", "25", "???"]));
}

#[test]
fn duplicate_levels_collapse() {
    let index = derive_levels(&charts(&["2", "1", "2", "2", "1", "x", "x"]));
    assert_eq!(index, labels(&["1", "2", "x"]));
}

#[test]
fn every_chart_with_the_same_level_gives_one_level() {
    let index = derive_levels(&charts(&["7", "7", "7"]));
    assert_eq!(index, labels(&["7"]));
}

#[test]
fn no_charts_give_no_levels() {
    let index = derive_levels(&Vec::new());
    assert!(index.is_empty());
}

#[test]
fn the_index_has_each_level_once_and_no_other() {
    let given = ["12", "b", "3", "a", "12", "3", "0", "b", "-4"];
    let index = derive_levels(&charts(&given));
    for level in given {
        assert_eq!(index.iter().filter(|label| label.as_str() == level).count(), 1);
    }
    for label in &index {
        assert!(given.contains(&label.as_str()));
    }
    for pair in index.windows(2) {
        assert!(!precedes(&pair[1], &pair[0]));
    }
}

#[test]
fn equal_numbers_keep_the_order_of_their_first_occurrence() {
    let index = derive_levels(&charts(&["2", "01", "1", "+1", "01"]));
    assert_eq!(index, labels(&["01", "1", "+1", "2"]));
}

#[test]
fn negative_levels_stand_before_zero() {
    let index = derive_levels(&charts(&["0", "-1", "5", "-10"]));
    assert_eq!(index, labels(&["-10", "-1", "0", "5"]));
}

#[test]
fn a_number_too_large_for_32_bits_is_text() {
    assert!(precedes("2147483647", "2147483648") == ("2147483647" < "2147483648"));
    assert!(precedes("2147483648", "3"));
    assert!(!precedes("3", "2147483648"));
    assert!(precedes("3", "2147483647"));
}

#[test]
fn the_order_of_three_labels_can_turn_in_a_circle() {
    assert!(precedes("10", "1a"));
    assert!(precedes("1a", "9"));
    assert!(precedes("9", "10"));
    let index = derive_levels(&charts(&["10", "1a", "9"]));
    assert_eq!(index, labels(&["10", "1a", "9"]));
    let index = derive_levels(&charts(&["9", "10", "1a"]));
    assert_eq!(index, labels(&["9", "10", "1a"]));
}

#[test]
fn sort_levels_keeps_duplicates() {
    let sorted = sort_levels(labels(&["b", "2", "a", "2", "10"]));
    assert_eq!(sorted, labels(&["2", "2", "10", "a", "b"]));
    let sorted = place_levels(labels(&["b", "2", "a", "2", "10"]));
    assert_eq!(sorted, labels(&["2", "2", "10", "a", "b"]));
}

#[test]
fn parse_level_reads_what_the_standard_library_reads() {
    let samples = [
        "", "0", "7", "007", "+7", "-7", "+", "-", "--1", "+-1", "1+", " 1", "1 ", "1_000", "12a",
        "a12", "2147483647", "2147483648", "-2147483648", "-2147483649", "+2147483647",
        "00000000000000000000000000012", "99999999999999999999999999999", "१२", "1.5", "0x10",
        "-0", "+0", "???", "★",
    ];
    for sample in samples {
        assert_eq!(parse_level(&chars(sample)), sample.parse::<i32>().ok(), "{sample:?}");
    }
}

#[test]
fn parse_level_exact_values() {
    assert_eq!(parse_level(&chars("42")), Some(42));
    assert_eq!(parse_level(&chars("-2147483648")), Some(i32::MIN));
    assert_eq!(parse_level(&chars("2147483647")), Some(i32::MAX));
    assert_eq!(parse_level(&chars("2147483648")), None);
    assert_eq!(parse_level(&chars("4x")), None);
}

#[test]
fn text_order_is_that_of_the_standard_library() {
    let samples = ["", "a", "ab", "b", "B", "10", "9", "1a", "★", "★★", "発狂", "z", "é", "e"];
    for a in samples {
        for b in samples {
            assert_eq!(text_precedes(&chars(a), &chars(b)), a < b, "{a:?} {b:?}");
        }
    }
}

#[test]
fn level_order_is_that_of_the_mixed_comparison() {
    let samples = ["0", "1", "01", "10", "9", "-3", "+3", "a", "A", "1a", "???", "", "2147483648"];
    for a in samples {
        for b in samples {
            let expected = match (a.parse::<i32>(), b.parse::<i32>()) {
                (Ok(x), Ok(y)) => x < y,
                _ => a < b,
            };
            assert_eq!(precedes(a, b), expected, "{a:?} {b:?}");
        }
    }
}

#[test]
fn the_index_is_what_unique_and_a_stable_sort_give() {
    let given = [
        "12", "3", "???", "0", "12", "7", "3", "25", "1", "01", "24", "a", "0", "11", "b", "2",
    ];
    let expected: Vec<String> = given
        .iter()
        .map(|level| level.to_string())
        .unique()
        .sorted_by(|a, b| match (a.parse::<i32>(), b.parse::<i32>()) {
            (Ok(x), Ok(y)) => x.cmp(&y),
            _ => a.cmp(b),
        })
        .collect();
    assert_eq!(derive_levels(&charts(&given)), expected);
}

fn mixed(a: &String, b: &String) -> Ordering {
    match (a.parse::<i32>(), b.parse::<i32>()) {
        (Ok(x), Ok(y)) => x.cmp(&y),
        _ => a.cmp(b),
    }
}

fn shuffled(count: usize, seed: u64, alphabet: &[&str], longest: u64) -> Vec<String> {
    let mut state = seed;
    let mut step = || {
        state = state.wrapping_mul(6364136223846793005).wrapping_add(1442695040888963407);
        state >> 33
    };
    let mut made = Vec::new();
    for _ in 0..count {
        let length = 1 + step() % longest;
        let mut label = String::new();
        for _ in 0..length {
            label.push_str(alphabet[(step() % alphabet.len() as u64) as usize]);
        }
        made.push(label);
    }
    made
}

#[test]
fn compare_levels_is_the_mixed_comparison() {
    let samples = ["0", "1", "01", "10", "9", "-3", "+3", "a", "A", "1a", "???", "", "2147483648"];
    for a in samples {
        for b in samples {
            let (a, b) = (a.to_string(), b.to_string());
            assert_eq!(compare_levels(&a, &b), mixed(&a, &b), "{a:?} {b:?}");
        }
    }
    assert_eq!(compare_levels(&String::from("9"), &String::from("10")), Ordering::Less);
    assert_eq!(compare_levels(&String::from("10"), &String::from("9")), Ordering::Greater);
    assert_eq!(compare_levels(&String::from("01"), &String::from("1")), Ordering::Equal);
    assert_eq!(compare_levels(&String::from("b"), &String::from("a")), Ordering::Greater);
}

#[test]
fn many_numbers_go_up_by_number() {
    let given: Vec<String> = (0..500).map(|n| ((n * 7919) % 1009 - 300).to_string()).collect();
    let sorted = sort_levels(given.clone());
    let mut expected: Vec<i32> = given.iter().map(|label| label.parse().unwrap()).collect();
    expected.sort();
    let numbers: Vec<i32> = sorted.iter().map(|label| label.parse().unwrap()).collect();
    assert_eq!(numbers, expected);
    assert_eq!(sorted[0], "-300");
    assert_eq!(sorted[499], expected[499].to_string());
}

#[test]
fn many_levels_with_symbols_behind_the_numbers() {
    let mut given: Vec<String> = (0..60).map(|n| ((n * 37) % 61).to_string()).collect();
    given.insert(17, String::from("???"));
    given.insert(3, String::from("★"));
    given.insert(40, String::from("a"));
    let index = derive_levels(&charts(&given.iter().map(String::as_str).collect::<Vec<_>>()));
    let mut expected: Vec<String> = (0..61).map(|n: i32| n.to_string()).collect();
    expected.retain(|label| given.contains(label));
    expected.extend([String::from("???"), String::from("a"), String::from("★")]);
    assert_eq!(index, expected);
}

#[test]
fn ties_keep_their_order_among_many() {
    let mut given = Vec::new();
    for n in 0..40 {
        given.push(format!("{}", 39 - n));
        given.push(format!("0{}", 39 - n));
        given.push(format!("+{}", 39 - n));
    }
    let sorted = sort_levels(given);
    for n in 0..40 {
        assert_eq!(sorted[3 * n], format!("{n}"));
        assert_eq!(sorted[3 * n + 1], format!("0{n}"));
        assert_eq!(sorted[3 * n + 2], format!("+{n}"));
    }
}

#[test]
fn both_ways_of_sorting_give_the_same() {
    let digits = ["0", "1", "2", "3", "9"];
    let letters = ["a", "b", "?", "★"];
    let both = ["0", "1", "9", "a", "+", "-", "?"];
    for seed in 0..200u64 {
        for (alphabet, longest) in [(&digits[..], 4), (&letters[..], 3), (&both[..], 3)] {
            let given = shuffled(5 + (seed as usize % 60), seed, alphabet, longest);
            assert_eq!(sort_levels(given.clone()), place_levels(given.clone()), "{given:?}");
        }
    }
}

#[test]
fn sorting_is_the_stable_sort_wherever_the_order_is_total() {
    let digits = ["0", "1", "2", "3", "9"];
    let letters = ["a", "b", "?", "★"];
    for seed in 0..100u64 {
        for (alphabet, longest) in [(&digits[..], 5), (&letters[..], 4)] {
            let given = shuffled(80, seed, alphabet, longest);
            let mut expected = given.clone();
            expected.sort_by(mixed);
            assert_eq!(sort_levels(given.clone()), expected, "{given:?}");
            let expected: Vec<String> = given.iter().cloned().unique().sorted_by(mixed).collect();
            assert_eq!(
                derive_levels(&charts(&given.iter().map(String::as_str).collect::<Vec<_>>())),
                expected
            );
        }
    }
}

#[test]
fn a_circle_among_many_labels_is_borne() {
    let mut given: Vec<String> = (0..100).map(|n| ((n * 13) % 101).to_string()).collect();
    given.push(String::from("1a"));
    given.push(String::from("5x"));
    given.push(String::from("0z"));
    let sorted = sort_levels(given.clone());
    assert_eq!(sorted.len(), given.len());
    for label in &given {
        assert!(sorted.contains(label));
    }
    for pair in sorted.windows(2) {
        assert!(!precedes(&pair[1], &pair[0]));
    }
    assert_eq!(sorted, place_levels(given));
}
