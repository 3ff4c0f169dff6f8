use rusk::strategy::{
    extend, extend_collect_then_extend, extend_copy_then_mutate, extend_scalar_only, Strategy,
};
use rusk::threshold::{max_element, max_position, resolve_threshold, ExtendError};

const ALL: [Strategy; 3] = [
    Strategy::CopyThenMutate,
    Strategy::CollectThenExtend,
    Strategy::ScalarOnly,
];

fn strings(items: &[&str]) -> Vec<String> {
    items.iter().map(|s| s.to_string()).collect()
}

fn by_len(s: &String) -> usize {
    s.len()
}

fn lorem() -> Vec<String> {
    strings(&[
        "Lorem",
        "Ipsum",
        "is",
        "simply",
        "dummy",
        "text",
        "of",
        "the",
        "printing",
        "and",
        "typesetting",
        "industry.",
    ])
}

#[test]
fn long_sentence_is_appended_by_every_strategy() {
    for strategy in ALL {
        let mut d = lorem();
        let s = strings(&["Where does it come from?"]);
        assert_eq!(extend(strategy, &mut d, &s, by_len), Ok(()));
        assert_eq!(d.len(), 13);
        assert_eq!(d[12], "Where does it come from?");
        assert_eq!(&d[..12], &lorem()[..]);
    }
}

#[test]
fn short_word_is_not_appended_by_any_strategy() {
    for strategy in ALL {
        let mut d = lorem();
        let s = strings(&["hi"]);
        assert_eq!(extend(strategy, &mut d, &s, by_len), Ok(()));
        assert_eq!(d, lorem());
    }
}

#[test]
fn lorem_threshold_is_eleven_bytes() {
    let d = lorem();
    assert_eq!(resolve_threshold(&d, &by_len), Ok(11));
    assert_eq!(max_position(&d, &by_len), Ok(10));
    assert_eq!(max_element(&d, &by_len), Ok(&d[10]));
}

#[test]
fn copy_then_mutate_filters_and_keeps_order() {
    let mut d = strings(&["ab", "abcd"]);
    let s = strings(&["abcde", "x", "abcdef", "abcd", "zzzzz"]);
    assert_eq!(extend_copy_then_mutate(&mut d, &s, by_len), Ok(()));
    assert_eq!(d, strings(&["ab", "abcd", "abcde", "abcdef", "zzzzz"]));
}

#[test]
fn collect_then_extend_filters_and_keeps_order() {
    let mut d = strings(&["ab", "abcd"]);
    let s = strings(&["abcde", "x", "abcdef", "abcd", "zzzzz"]);
    assert_eq!(extend_collect_then_extend(&mut d, &s, by_len), Ok(()));
    assert_eq!(d, strings(&["ab", "abcd", "abcde", "abcdef", "zzzzz"]));
}

#[test]
fn scalar_only_filters_and_keeps_order() {
    let mut d = strings(&["ab", "abcd"]);
    let s = strings(&["abcde", "x", "abcdef", "abcd", "zzzzz"]);
    assert_eq!(extend_scalar_only(&mut d, &s, by_len), Ok(()));
    assert_eq!(d, strings(&["ab", "abcd", "abcde", "abcdef", "zzzzz"]));
}

#[test]
fn strategies_agree_on_mixed_input() {
    let s = strings(&["bbb", "", "cccccc", "dd", "eeee", "ffff", "g"]);
    let mut results = Vec::new();
    for strategy in ALL {
        let mut d = strings(&["a", "aaa", "aa"]);
        assert_eq!(extend(strategy, &mut d, &s, by_len), Ok(()));
        results.push(d);
    }
    assert_eq!(results[0], strings(&["a", "aaa", "aa", "cccccc", "eeee", "ffff"]));
    assert_eq!(results[0], results[1]);
    assert_eq!(results[1], results[2]);
}

#[test]
fn equal_key_is_not_appended() {
    for strategy in ALL {
        let mut d = strings(&["abc"]);
        let s = strings(&["xyz", "wxyz", "uvw"]);
        assert_eq!(extend(strategy, &mut d, &s, by_len), Ok(()));
        assert_eq!(d, strings(&["abc", "wxyz"]));
    }
}

#[test]
fn empty_source_leaves_destination_unchanged() {
    for strategy in ALL {
        let mut d = strings(&["one", "three"]);
        let s: Vec<String> = Vec::new();
        assert_eq!(extend(strategy, &mut d, &s, by_len), Ok(()));
        assert_eq!(d, strings(&["one", "three"]));
    }
}

#[test]
fn empty_destination_is_an_error_for_every_strategy() {
    for strategy in ALL {
        let mut d: Vec<String> = Vec::new();
        let s = strings(&["anything"]);
        assert_eq!(
            extend(strategy, &mut d, &s, by_len),
            Err(ExtendError::EmptyDestination)
        );
        assert!(d.is_empty());
    }
    let mut d: Vec<String> = Vec::new();
    let s = strings(&["x"]);
    assert_eq!(
        extend_copy_then_mutate(&mut d, &s, by_len),
        Err(ExtendError::EmptyDestination)
    );
    assert_eq!(
        extend_collect_then_extend(&mut d, &s, by_len),
        Err(ExtendError::EmptyDestination)
    );
    assert_eq!(
        extend_scalar_only(&mut d, &s, by_len),
        Err(ExtendError::EmptyDestination)
    );
    assert!(d.is_empty());
}

#[test]
fn resolvers_fail_on_empty_destination() {
    let d: Vec<String> = Vec::new();
    assert_eq!(resolve_threshold(&d, &by_len), Err(ExtendError::EmptyDestination));
    assert_eq!(max_position(&d, &by_len), Err(ExtendError::EmptyDestination));
    assert_eq!(max_element(&d, &by_len), Err(ExtendError::EmptyDestination));
}

#[test]
fn max_position_picks_first_of_equal_keys() {
    let d = strings(&["aa", "bbb", "ccc", "d"]);
    assert_eq!(max_position(&d, &by_len), Ok(1));
    assert_eq!(max_element(&d, &by_len), Ok(&d[1]));
    assert_eq!(resolve_threshold(&d, &by_len), Ok(3));
}

#[test]
fn custom_key_counts_vowels() {
    let vowels = |s: &String| s.chars().filter(|c| "aeiou".contains(*c)).count();
    for strategy in ALL {
        let mut d = strings(&["banana", "kiwi"]);
        let s = strings(&["aeiou", "strength", "eerie"]);
        assert_eq!(extend(strategy, &mut d, &s, vowels), Ok(()));
        assert_eq!(d, strings(&["banana", "kiwi", "aeiou", "eerie"]));
    }
}

#[test]
fn duplicates_in_source_are_all_appended() {
    for strategy in ALL {
        let mut d = strings(&["a"]);
        let s = strings(&["bb", "bb", "c", "bb"]);
        assert_eq!(extend(strategy, &mut d, &s, by_len), Ok(()));
        assert_eq!(d, strings(&["a", "bb", "bb", "bb"]));
    }
}
