use sse::pattern::{Matcher, Matches, PatternFlags};

fn flags() -> PatternFlags {
    PatternFlags::plain()
}

#[test]
fn captures_hold_the_spans_of_the_first_match() {
    let matcher = Matcher::new(r"(\w),(\d)", flags()).unwrap();
    let caps = matcher.captures("x a,1 b,2").unwrap();
    assert_eq!(caps.spans, vec![Some((2, 5)), Some((2, 3)), Some((4, 5))]);
    assert_eq!(caps.haystack, "x a,1 b,2");
    assert_eq!(caps.whole(), Some((2, 5)));
    assert_eq!(caps.get(0), Some("a,1"));
    assert_eq!(caps.get(1), Some("a"));
    assert_eq!(caps.get(2), Some("1"));
    assert_eq!(caps.get(3), None);
    assert!(matcher.captures("nothing here").is_none());
}

#[test]
fn group_that_took_no_part_has_no_span() {
    let matcher = Matcher::new(r"[a-z]+(?:([0-9]+)|([A-Z]+))", flags()).unwrap();
    let caps = matcher.captures("abc123").unwrap();
    assert_eq!(caps.spans, vec![Some((0, 6)), Some((3, 6)), None]);
    assert_eq!(caps.get(1), Some("123"));
    assert_eq!(caps.get(2), None);
}

#[test]
fn groups_go_by_the_names_of_the_pattern() {
    let matcher = Matcher::new(r"(?P<key>\w+)=(?P<value>\w+)(;)?", flags()).unwrap();
    let caps = matcher.captures("  size=10").unwrap();
    assert_eq!(caps.names, &[None, Some("key".to_string()), Some("value".to_string()), None][..]);
    assert_eq!(caps.name("key"), Some("size"));
    assert_eq!(caps.name("value"), Some("10"));
    assert_eq!(caps.name("other"), None);
    assert_eq!(caps.name(""), None);
}

#[test]
fn captures_iter_goes_from_left_to_right() {
    let matcher = Matcher::new(r"(\d)(\w)?", flags()).unwrap();
    let all = matcher.captures_iter("1a 2 é3b").collect();
    assert_eq!(all.len(), 3);
    assert_eq!(all[0].spans, vec![Some((0, 2)), Some((0, 1)), Some((1, 2))]);
    assert_eq!(all[1].spans, vec![Some((3, 4)), Some((3, 4)), None]);
    assert_eq!(all[2].spans, vec![Some((7, 9)), Some((7, 8)), Some((8, 9))]);
    assert_eq!(all[2].get(0), Some("3b"));
    assert!(matcher.captures_iter("no digit").collect().is_empty());
    assert!(matcher.captures_iter("no digit").next().is_none());
}

#[test]
fn empty_matches_are_matches_too() {
    let matcher = Matcher::new(r"x*", flags()).unwrap();
    let all = matcher.captures_iter("ab").collect();
    let wholes: Vec<Option<(usize, usize)>> = all.iter().map(|caps| caps.whole()).collect();
    assert_eq!(wholes, vec![Some((0, 0)), Some((1, 1)), Some((2, 2))]);
}

#[test]
fn is_match_tells_whether_there_is_a_match() {
    let matcher = Matcher::new(r"^-?-[hH]([eE][lL][pP])?$", flags()).unwrap();
    assert!(matcher.is_match("--help"));
    assert!(matcher.is_match("-h"));
    assert!(!matcher.is_match("help"));
}

#[test]
fn pattern_that_does_not_compile_is_an_error() {
    assert!(Matcher::new(r"foo(bar", flags()).is_err());
    assert!(Matcher::new(r"*", flags()).is_err());
    assert!(Matcher::new(r"foo(bar)", flags()).is_ok());
}

#[test]
fn switches_reach_the_pattern() {
    let mut switched = flags();
    assert!(!Matcher::new("abc", switched).unwrap().is_match("ABC"));
    switched.case_insensitive = true;
    assert!(Matcher::new("abc", switched).unwrap().is_match("ABC"));

    let mut switched = flags();
    assert!(!Matcher::new("^b$", switched).unwrap().is_match("a\nb\nc"));
    switched.multi_line = true;
    assert!(Matcher::new("^b$", switched).unwrap().is_match("a\nb\nc"));

    let mut switched = flags();
    assert!(!Matcher::new("a.b", switched).unwrap().is_match("a\nb"));
    switched.dot_matches_new_line = true;
    assert!(Matcher::new("a.b", switched).unwrap().is_match("a\nb"));

    let mut switched = flags();
    assert_eq!(Matcher::new("a+", switched).unwrap().captures("aaa").unwrap().whole(), Some((0, 3)));
    switched.swap_greed = true;
    assert_eq!(Matcher::new("a+", switched).unwrap().captures("aaa").unwrap().whole(), Some((0, 1)));

    let mut switched = flags();
    assert!(!Matcher::new("a b", switched).unwrap().is_match("ab"));
    switched.ignore_whitespace = true;
    assert!(Matcher::new("a b", switched).unwrap().is_match("ab"));

    let mut switched = flags();
    assert!(Matcher::new(r"^\w$", switched).unwrap().is_match("é"));
    switched.unicode = false;
    assert!(!Matcher::new(r"^\w$", switched).unwrap().is_match("é"));
}

#[test]
fn matches_are_handed_out_one_by_one() {
    let matcher = Matcher::new(r"\d", flags()).unwrap();
    let mut matches = matcher.captures_iter("a1b22");
    assert_eq!(matches.next().unwrap().whole(), Some((1, 2)));
    assert_eq!(matches.next().unwrap().whole(), Some((3, 4)));
    assert_eq!(matches.next().unwrap().whole(), Some((4, 5)));
    assert!(matches.next().is_none());
    assert!(matches.next().is_none());
}

#[test]
fn matches_that_were_found_before_come_in_their_order() {
    let names = [None, Some("n".to_string())];
    let spans = vec![vec![Some((0, 1)), None], vec![Some((2, 3)), Some((2, 3))], vec![]];
    let mut matches = Matches::found("a b", &names, spans.clone());
    let first = matches.next().unwrap();
    assert_eq!(first.spans, spans[0]);
    assert_eq!(first.haystack, "a b");
    assert_eq!(first.name("n"), None);
    let second = matches.next().unwrap();
    assert_eq!(second.spans, spans[1]);
    assert_eq!(second.name("n"), Some("b"));
    assert_eq!(matches.next().unwrap().spans, spans[2]);
    assert!(matches.next().is_none());
    assert_eq!(Matches::found("a b", &names, spans.clone()).collect().len(), 3);
    assert!(Matches::found("a b", &names, Vec::new()).collect().is_empty());
}
