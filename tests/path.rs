use router_rs::{chars_of, parse_u64, same_chars, segment_spans};

fn segments(s: &str) -> Vec<String> {
    let chars = chars_of(s);
    segment_spans(&chars)
        .into_iter()
        .map(|(a, b)| chars[a..b].iter().collect())
        .collect()
}

#[test]
fn chars_of_keeps_every_character() {
    assert_eq!(chars_of("a/é"), vec!['a', '/', 'é']);
    assert!(chars_of("").is_empty());
}

#[test]
fn segments_ignore_surrounding_slashes() {
    assert_eq!(segments("/users/5/name"), vec!["users", "5", "name"]);
    assert_eq!(segments("//users/5//"), vec!["users", "5"]);
    assert_eq!(segments("users"), vec!["users"]);
}

#[test]
fn segments_of_empty_and_root() {
    assert_eq!(segments(""), vec![""]);
    assert_eq!(segments("/"), vec![""]);
    assert_eq!(segments("///"), vec![""]);
}

#[test]
fn inner_double_slash_is_an_empty_segment() {
    assert_eq!(segments("/a//b"), vec!["a", "", "b"]);
}

#[test]
fn spans_index_the_original() {
    let chars = chars_of("/api/users");
    assert_eq!(segment_spans(&chars), vec![(1, 4), (5, 10)]);
}

#[test]
fn same_chars_compares_pieces() {
    let a = chars_of("xusersx");
    let b = chars_of("users");
    assert!(same_chars(&a, 1, 6, &b, 0, 5));
    assert!(!same_chars(&a, 0, 5, &b, 0, 5));
    assert!(!same_chars(&a, 1, 5, &b, 0, 5));
    assert!(same_chars(&a, 3, 3, &b, 2, 2));
}

#[test]
fn parse_u64_values() {
    let s = chars_of("x42x");
    assert_eq!(parse_u64(&s, 1, 3), Some(42));
    assert_eq!(parse_u64(&s, 0, 3), None);
    assert_eq!(parse_u64(&s, 1, 1), None);
    let max = chars_of("18446744073709551615");
    assert_eq!(parse_u64(&max, 0, max.len()), Some(u64::MAX));
    let over = chars_of("18446744073709551616");
    assert_eq!(parse_u64(&over, 0, over.len()), None);
    let big = chars_of("99999999999999999999");
    assert_eq!(parse_u64(&big, 0, big.len()), None);
    let plus = chars_of("+15");
    assert_eq!(parse_u64(&plus, 0, plus.len()), Some(15));
    assert_eq!(parse_u64(&plus, 0, 1), None);
    let minus = chars_of("-15");
    assert_eq!(parse_u64(&minus, 0, minus.len()), None);
}
