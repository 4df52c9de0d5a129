use lib::errors::{Error, Reason, SourceFile};
use lib::span::Span;
use lib::suggest::{chars_of, closest_match, levenshtein};
use lib::text::{concat2, concat3, i64_to_string, push_i64, push_str, push_u64, string_of};

fn distance(a: &str, b: &str) -> usize {
    levenshtein(&chars_of(a), &chars_of(b))
}

#[test]
fn levenshtein_known_distances() {
    assert_eq!(distance("kitten", "sitting"), 3);
    assert_eq!(distance("", "abc"), 3);
    assert_eq!(distance("abc", ""), 3);
    assert_eq!(distance("same", "same"), 0);
    assert_eq!(distance("flaw", "lawn"), 2);
    assert_eq!(distance("count", "cont"), 1);
}

#[test]
fn levenshtein_is_symmetric_on_examples() {
    assert_eq!(distance("saturday", "sunday"), distance("sunday", "saturday"));
    assert_eq!(distance("saturday", "sunday"), 3);
}

#[test]
fn closest_match_picks_nearest_within_two() {
    let names = vec!["count".to_string(), "total".to_string()];
    assert_eq!(closest_match("cont", &names), Some("count".to_string()));
    assert_eq!(closest_match("totl", &names), Some("total".to_string()));
}

#[test]
fn closest_match_none_when_too_far() {
    let names = vec!["count".to_string()];
    assert_eq!(closest_match("zzzzz", &names), None);
    assert_eq!(closest_match("cnt", &vec![]), None);
}

#[test]
fn closest_match_prefers_first_of_equal_distance() {
    let names = vec!["bat".to_string(), "cat".to_string()];
    assert_eq!(closest_match("at", &names), Some("bat".to_string()));
    let names = vec!["ab".to_string(), "a".to_string()];
    assert_eq!(closest_match("a", &names), Some("a".to_string()));
}

#[test]
fn chars_of_splits_into_characters() {
    assert_eq!(chars_of("hé!"), vec!['h', 'é', '!']);
    assert!(chars_of("").is_empty());
}

#[test]
fn decimal_formatting() {
    assert_eq!(i64_to_string(0), "0");
    assert_eq!(i64_to_string(42), "42");
    assert_eq!(i64_to_string(-42), "-42");
    assert_eq!(i64_to_string(i64::MAX), "9223372036854775807");
    assert_eq!(i64_to_string(i64::MIN), "-9223372036854775808");
    let mut s = String::from("n=");
    push_u64(&mut s, u64::MAX);
    assert_eq!(s, "n=18446744073709551615");
    let mut s = String::new();
    push_i64(&mut s, -7);
    push_str(&mut s, "!");
    assert_eq!(s, "-7!");
}

#[test]
fn concatenation_helpers() {
    assert_eq!(concat2("ab", "cd"), "abcd");
    assert_eq!(concat3("a", "", "c"), "ac");
    assert_eq!(string_of("x"), "x");
}

#[test]
fn span_join_covers_both() {
    let s = Span::new(4, 6).join(Span::new(1, 3));
    assert_eq!(s, Span::new(1, 6));
    let s = Span::new(2, 9).join(Span::new(3, 4));
    assert_eq!(s, Span::new(2, 9));
}

#[test]
fn error_builders() {
    let e = Error::at(Reason::Runtime, "boom".to_string(), Span::new(1, 2))
        .with_label(Span::new(0, 1), "here".to_string())
        .with_help("try again".to_string())
        .with_source_file(&SourceFile::new("main.x".to_string(), "a b".to_string()));
    assert_eq!(e.reason, Reason::Runtime);
    assert_eq!(e.message, "boom");
    assert_eq!(e.span, Some(Span::new(1, 2)));
    assert_eq!(e.line, None);
    assert_eq!(e.labels.len(), 1);
    assert_eq!(e.labels[0].message, "here");
    assert_eq!(e.help, Some("try again".to_string()));
    assert_eq!(e.source_file.as_ref().map(|f| f.name.clone()), Some("main.x".to_string()));
    let e = Error::init("bad".to_string(), Some(3), Reason::Parse);
    assert_eq!(e.span, None);
    assert_eq!(e.line, Some(3));
    assert!(e.labels.is_empty());
}
