use sse::cap_groups::CapGroup;
use sse::cap_iter::{CapIter, CapOut};
use sse::pattern::{Matcher, Matches, PatternFlags};

fn shown(items: &[CapOut]) -> Vec<String> {
    items
        .iter()
        .map(|item| match item {
            CapOut::CopyText(text) => format!("copy:{}", text),
            CapOut::Group(caps) => format!("group:{}", caps.get(0).unwrap_or("?")),
        })
        .collect()
}

fn written(buffer: &str, caps: Matches, nice: bool, template: &str) -> String {
    let groups = CapGroup::build_groups(template);
    let mut text = String::new();
    let mut bytes = Vec::new();
    let mut it = CapIter::new(buffer, caps, nice);
    while let Some(item) = it.next() {
        item.output(&groups, &mut text);
        item.stream_output(&groups, &mut bytes);
    }
    assert_eq!(text.as_bytes(), &bytes[..]);
    text
}

#[test]
fn nice_mode_keeps_the_text_between_the_matches() {
    let matcher = Matcher::new(r"\d+", PatternFlags::plain()).unwrap();
    let buffer = "ab12cd345ef";
    let items = CapIter::new(buffer, matcher.captures_iter(buffer), true).collect();
    assert_eq!(shown(&items), vec!["copy:ab", "group:12", "copy:cd", "group:345", "copy:ef"]);
}

#[test]
fn without_nice_mode_only_the_matches_come() {
    let matcher = Matcher::new(r"\d+", PatternFlags::plain()).unwrap();
    let buffer = "ab12cd345ef";
    let items = CapIter::new(buffer, matcher.captures_iter(buffer), false).collect();
    assert_eq!(shown(&items), vec!["group:12", "group:345"]);
}

#[test]
fn neighbouring_matches_have_no_text_between_them() {
    let matcher = Matcher::new(r"\d", PatternFlags::plain()).unwrap();
    let buffer = "12a3";
    let items = CapIter::new(buffer, matcher.captures_iter(buffer), true).collect();
    assert_eq!(shown(&items), vec!["group:1", "group:2", "copy:a", "group:3"]);
}

#[test]
fn nice_mode_without_a_match_is_the_whole_buffer() {
    let text = "nothing matches ❤";
    let none = || Matches::found(text, &[], Vec::new());
    let items = CapIter::new(text, none(), true).collect();
    assert_eq!(shown(&items), vec!["copy:nothing matches ❤"]);
    assert_eq!(written(text, none(), true, "%0!"), text);
    assert_eq!(written(text, none(), false, "%0!"), "");
    let matcher = Matcher::new(r"\d", PatternFlags::plain()).unwrap();
    assert_eq!(written(text, matcher.captures_iter(text), true, "%0!"), text);
    assert!(CapIter::new("", Matches::found("", &[], Vec::new()), true).collect().is_empty());
    assert_eq!(written("", matcher.captures_iter(""), true, "%0!"), "");
}

#[test]
fn next_is_none_for_good_at_the_end() {
    let matcher = Matcher::new(r"b", PatternFlags::plain()).unwrap();
    let mut it = CapIter::new("abc", matcher.captures_iter("abc"), true);
    assert!(matches!(it.next(), Some(CapOut::CopyText("a"))));
    assert!(matches!(it.next(), Some(CapOut::Group(_))));
    assert!(matches!(it.next(), Some(CapOut::CopyText("c"))));
    assert!(it.next().is_none());
    assert!(it.next().is_none());
}

#[test]
fn segments_are_written_through_the_template() {
    let matcher = Matcher::new(r"(\w),(\d)", PatternFlags::plain()).unwrap();
    let buffer = "a,1\nb,2\nnoMatch\n";
    assert_eq!(written(buffer, matcher.captures_iter(buffer), false, "%2-%1"), "1-a2-b");
    assert_eq!(
        written(buffer, matcher.captures_iter(buffer), true, "%2-%1"),
        "1-a\n2-b\nnoMatch\n"
    );
}

#[test]
fn match_without_a_span_comes_without_text_before_it() {
    let odd = Matches::found("abc", &[], vec![vec![]]);
    let items = CapIter::new("abc", odd, true).collect();
    assert_eq!(shown(&items), vec!["group:?", "copy:abc"]);
}

#[test]
fn text_that_cannot_be_cut_is_left_out() {
    let backwards = Matches::found("abcdef", &[], vec![vec![Some((4, 5))], vec![Some((1, 2))]]);
    let items = CapIter::new("abcdef", backwards, true).collect();
    assert_eq!(shown(&items), vec!["copy:abcd", "group:e", "group:b", "copy:cdef"]);
}
