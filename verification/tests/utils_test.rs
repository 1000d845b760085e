use stacklet::args::{parse_args, ArgsError};
use stacklet::helpers::{find_widget_by_y, find_widget_by_y_mut};
use stacklet::matching::{exact_match, fuzzy_match, levenshtein_distance};
use stacklet::widget::Filter;

#[test]
fn exact_match_positive() {
    assert!(exact_match("hello, world!", "o"));
    assert!(exact_match("foo", "foo"));
    assert!(exact_match("<>!;;", "!;;"));
    assert!(exact_match("heart", "ear"));
}

#[test]
fn exact_match_negative() {
    assert!(!exact_match("hello, world!", "z"));
    assert!(!exact_match("foo", "bar"));
    assert!(!exact_match("<>!;;", "^"));
    assert!(!exact_match("rust", "rst"));
}

#[test]
fn fuzzy_match_positive() {
    assert!(fuzzy_match("dogs and cats", "dgs n cts"));
    assert!(fuzzy_match("oython", "python"));
    assert!(fuzzy_match(
        "long sentence to search through",
        "swntemce to through"
    ));
    assert!(fuzzy_match("foobar", "foo..bAr.."));
}

#[test]
fn fuzzy_match_negative() {
    assert!(!fuzzy_match("dogs and cats", "fphd smf vsyd"));
    assert!(!fuzzy_match("python", "nohtyp"));
    assert!(!fuzzy_match("big dogs dig deep holes", "abcdefghijklmnop"));
}

#[test]
fn find_widget_by_y_negative() {
    assert!(find_widget_by_y(&Vec::new(), 0).is_none());
}

#[test]
fn find_widget_by_y_mut_negative() {
    assert!(find_widget_by_y_mut(&mut Vec::new(), 0).is_none());
}

#[test]
fn exact_match_empty_needle() {
    assert!(exact_match("", ""));
    assert!(exact_match("abc", ""));
    assert!(!exact_match("", "a"));
}

#[test]
fn levenshtein_known_distances() {
    assert_eq!(levenshtein_distance("kitten", "sitting"), 3);
    assert_eq!(levenshtein_distance("", "abc"), 3);
    assert_eq!(levenshtein_distance("abc", ""), 3);
    assert_eq!(levenshtein_distance("same", "same"), 0);
    assert_eq!(levenshtein_distance("flaw", "lawn"), 2);
}

#[test]
fn levenshtein_symmetric_values() {
    assert_eq!(
        levenshtein_distance("python", "nohtyp"),
        levenshtein_distance("nohtyp", "python")
    );
    assert_eq!(
        levenshtein_distance("dogs and cats", "dgs n cts"),
        levenshtein_distance("dgs n cts", "dogs and cats")
    );
}

#[test]
fn fuzzy_match_reflexive() {
    assert!(fuzzy_match("x", "x"));
    assert!(fuzzy_match("some longer text", "some longer text"));
    assert!(fuzzy_match("", ""));
}

#[test]
fn fuzzy_match_threshold_edge() {
    // distance 3 against length 6: the ratio sits exactly on one half.
    assert_eq!(levenshtein_distance("abcdef", "abcxyz"), 3);
    assert!(fuzzy_match("abcdef", "abcxyz"));
    // distance 4 against length 6: under the threshold.
    assert_eq!(levenshtein_distance("abcdef", "abwxyz"), 4);
    assert!(!fuzzy_match("abcdef", "abwxyz"));
}

#[test]
fn filter_from_str_accepts_case_insensitive_words() {
    assert_eq!(Filter::from_str("off"), Ok(Filter::Off));
    assert_eq!(Filter::from_str("OFF"), Ok(Filter::Off));
    assert_eq!(Filter::from_str("Exact"), Ok(Filter::Exact));
    assert_eq!(Filter::from_str("eXaCt"), Ok(Filter::Exact));
    assert_eq!(Filter::from_str("fuzzy"), Ok(Filter::Fuzzy));
    assert_eq!(Filter::from_str("FuZzY"), Ok(Filter::Fuzzy));
}

#[test]
fn filter_from_str_rejects_other_words() {
    assert_eq!(Filter::from_str("buzz"), Err(()));
    assert_eq!(Filter::from_str(""), Err(()));
    assert_eq!(Filter::from_str("of"), Err(()));
    assert_eq!(Filter::from_str("offf"), Err(()));
}

#[test]
fn parse_args_reads_flags() {
    let args = vec!["-x".to_string(), "/bin/menu".to_string()];
    let parsed = parse_args(&args).unwrap();
    assert!(!parsed.help());
    assert!(!parsed.version());
    assert_eq!(parsed.exec_path().unwrap(), "/bin/menu");

    let args = vec!["-h".to_string()];
    let parsed = parse_args(&args).unwrap();
    assert!(parsed.help());

    let args = vec!["--version".to_string()];
    let parsed = parse_args(&args).unwrap();
    assert!(parsed.version());
    assert!(parsed.exec_path().is_none());
}

#[test]
fn parse_args_rejects_unknown_flag() {
    let args = vec!["--bogus".to_string()];
    match parse_args(&args) {
        Err(ArgsError::UnknownArgument(u)) => assert_eq!(u, "--bogus"),
        _ => panic!("expected an unknown-argument error"),
    }
}

#[test]
fn parse_args_rejects_missing_exec_value() {
    let args = vec!["--exec".to_string()];
    match parse_args(&args) {
        Err(ArgsError::MissingExecValue) => {}
        _ => panic!("expected a missing-value error"),
    }
}
