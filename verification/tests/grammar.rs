use regex::Regex;
use sse::cap_groups::CapGroup;

/// The group tokens of a format string, as a pattern.
const GROUP_TOKEN: &str = r#"%(?P<escapegroup>%)?((<((?P<labelledgroup>[a-z][a-zA-Z0-9]+)|(?P<multidigit>[0-9]{2,}))>)|(?P<singledigit>[0-9]))"#;

/// The character escapes of a format string, as a pattern.
const CHARACTER_ESCAPE: &str = r#"((?P<tab>\x5Ct)|(?P<newline>\x5Cn)|(?P<carriagereturn>\x5Cr)|(?P<verticaltab>\x5Cv)|(?P<backslash>\x5C\x5C)|(?P<unicode>\x5C(u|x|U)\{(?P<unicodevalue>[a-f0-9A-F]{1,8})\}))"#;

#[derive(Debug, PartialEq)]
enum Token {
    MultiDigit(usize),
    SingleDigit(usize),
    Labelled(String),
    Escape(String),
    CopyFromInput(String),
    SingleChar(char),
}

fn owned(groups: &[CapGroup]) -> Vec<Token> {
    groups
        .iter()
        .map(|group| match group {
            CapGroup::MultiDigit(n) => Token::MultiDigit(*n),
            CapGroup::SingleDigit(n) => Token::SingleDigit(*n),
            CapGroup::Labelled(name) => Token::Labelled(name.to_string()),
            CapGroup::Escape(text) => Token::Escape(text.to_string()),
            CapGroup::CopyFromInput(text) => Token::CopyFromInput(text.to_string()),
            CapGroup::SingleChar(c) => Token::SingleChar(*c),
        })
        .collect()
}

fn escapes_by_pattern(escapes: &Regex, text: &str, tokens: &mut Vec<Token>) {
    let mut old_start = 0;
    for cap in escapes.captures_iter(text) {
        let whole = cap.get(0).unwrap();
        if whole.start() != old_start {
            tokens.push(Token::CopyFromInput(text[old_start..whole.start()].to_string()));
        }
        old_start = whole.end();
        let written = if cap.name("tab").is_some() {
            Some('\t')
        } else if cap.name("newline").is_some() {
            Some('\n')
        } else if cap.name("carriagereturn").is_some() {
            Some('\r')
        } else if cap.name("verticaltab").is_some() {
            Some('\u{0B}')
        } else if cap.name("backslash").is_some() {
            Some('\\')
        } else {
            u32::from_str_radix(cap.name("unicodevalue").unwrap().as_str(), 16)
                .ok()
                .and_then(char::from_u32)
        };
        if let Some(c) = written {
            tokens.push(Token::SingleChar(c));
        }
    }
    if old_start < text.len() {
        tokens.push(Token::CopyFromInput(text[old_start..].to_string()));
    }
}

fn tokens_by_pattern(groups: &Regex, escapes: &Regex, template: &str) -> Vec<Token> {
    let mut tokens = Vec::new();
    let mut old_start = 0;
    for cap in groups.captures_iter(template) {
        let whole = cap.get(0).unwrap();
        if whole.start() != old_start {
            escapes_by_pattern(escapes, &template[old_start..whole.start()], &mut tokens);
        }
        old_start = whole.end();
        if cap.name("escapegroup").is_some() {
            tokens.push(Token::Escape(whole.as_str()[1..].to_string()));
        } else if let Some(name) = cap.name("labelledgroup") {
            tokens.push(Token::Labelled(name.as_str().to_string()));
        } else if let Some(digits) = cap.name("multidigit") {
            tokens.push(Token::MultiDigit(digits.as_str().parse().unwrap_or(usize::MAX)));
        } else {
            tokens.push(Token::SingleDigit(cap.name("singledigit").unwrap().as_str().parse().unwrap()));
        }
    }
    if old_start < template.len() {
        escapes_by_pattern(escapes, &template[old_start..], &mut tokens);
    }
    tokens
}

fn agree_on_all(alphabet: &[&str], longest: usize) {
    let groups = Regex::new(GROUP_TOKEN).unwrap();
    let escapes = Regex::new(CHARACTER_ESCAPE).unwrap();
    let mut templates = vec![String::new()];
    let mut from = 0;
    for _ in 0..longest {
        let until = templates.len();
        for i in from..until {
            for symbol in alphabet {
                let longer = format!("{}{}", templates[i], symbol);
                templates.push(longer);
            }
        }
        from = until;
    }
    for template in templates.iter() {
        let compiled = CapGroup::build_groups(template);
        assert_eq!(
            owned(&compiled),
            tokens_by_pattern(&groups, &escapes, template),
            "template {:?}",
            template
        );
    }
}

#[test]
fn group_tokens_agree_with_their_pattern() {
    agree_on_all(&["%", "<", ">", "1", "0", "a", "B", "é"], 5);
}

#[test]
fn character_escapes_agree_with_their_pattern() {
    agree_on_all(&["\\", "t", "u", "{", "}", "f", "9", "%"], 5);
    agree_on_all(&["\\x{", "\\U{", "}", "D", "8", "0", "1", "g"], 5);
}

#[test]
fn long_runs_agree_with_their_pattern() {
    let groups = Regex::new(GROUP_TOKEN).unwrap();
    let escapes = Regex::new(CHARACTER_ESCAPE).unwrap();
    let mut templates = Vec::new();
    for digits in 0..12 {
        templates.push(format!("\\u{{{}}}", "1".repeat(digits)));
        templates.push(format!("\\u{{{}}}", "0".repeat(digits)));
        templates.push(format!("\\x{{{}}}x", "F".repeat(digits)));
        templates.push(format!("%<{}>", "9".repeat(digits * 3)));
        templates.push(format!("%<a{}>", "b".repeat(digits * 3)));
        templates.push(format!("%%<{}>%<{}", "7".repeat(digits), "7".repeat(digits)));
    }
    for template in templates.iter() {
        assert_eq!(
            owned(&CapGroup::build_groups(template)),
            tokens_by_pattern(&groups, &escapes, template),
            "template {:?}",
            template
        );
    }
}
