use lib::cnf_scan::{is_scannable, scan, try_scan, Token, Type};

fn toks(input: &str) -> Vec<(String, Type)> {
    scan(&input.to_string()).into_iter().map(|Token(s, t)| (s, t)).collect()
}

fn pair(s: &str, t: Type) -> (String, Type) {
    (s.to_string(), t)
}

#[test]
fn keywords_and_symbols_are_interchangeable() {
    assert_eq!(
        toks("p and q & not s and !t"),
        vec![
            pair("p", Type::LIT),
            pair("and", Type::AND),
            pair("q", Type::LIT),
            pair("&", Type::AND),
            pair("not", Type::NOT),
            pair("s", Type::LIT),
            pair("and", Type::AND),
            pair("!", Type::NOT),
            pair("t", Type::LIT),
        ]
    );
}

#[test]
fn keyword_followed_by_letters_is_a_literal() {
    assert_eq!(
        toks("andine & notabene"),
        vec![pair("andine", Type::LIT), pair("&", Type::AND), pair("notabene", Type::LIT)]
    );
}

#[test]
fn symbols_do_not_become_literals() {
    assert_eq!(toks("&b"), vec![pair("&", Type::AND), pair("b", Type::LIT)]);
    assert_eq!(toks("|x"), vec![pair("|", Type::OR), pair("x", Type::LIT)]);
}

#[test]
fn disjunction_in_parentheses() {
    assert_eq!(
        toks("(a or b)"),
        vec![
            pair("(", Type::LPAREN),
            pair("a", Type::LIT),
            pair("or", Type::OR),
            pair("b", Type::LIT),
            pair(")", Type::RPAREN),
        ]
    );
}

#[test]
fn prefixes_of_keywords_are_literals() {
    assert_eq!(
        toks("a an no o"),
        vec![pair("a", Type::LIT), pair("an", Type::LIT), pair("no", Type::LIT), pair("o", Type::LIT)]
    );
}

#[test]
fn literals_may_hold_digits() {
    assert_eq!(toks("x1 and 42"), vec![pair("x1", Type::LIT), pair("and", Type::AND), pair("42", Type::LIT)]);
}

#[test]
fn whitespace_is_dropped() {
    assert_eq!(toks("  \n\t "), vec![]);
    assert_eq!(toks(""), vec![]);
}

#[test]
fn unscannable_character_is_reported() {
    assert!(!is_scannable(&"a # b".to_string()));
    assert!(try_scan(&"a # b".to_string()).is_none());
    assert!(is_scannable(&"a & b".to_string()));
    assert_eq!(try_scan(&"a".to_string()).unwrap().len(), 1);
}

#[test]
fn kind_names() {
    assert_eq!(Type::LPAREN.name(), "LPAREN");
    assert_eq!(Type::WHITESPACE.name(), "WHITESPACE");
    assert_eq!(Type::EOF.name(), "EOF");
}

#[test]
fn token_clone_and_eq() {
    let t = Token("p".to_string(), Type::LIT);
    let u = t.clone();
    assert!(t == u);
    assert!(t != Token("q".to_string(), Type::LIT));
}

#[test]
fn unicode_whitespace_separates_literals() {
    let input = "a\u{3000}b\tc\u{2028}d".to_string();
    let t = toks(&input);
    assert_eq!(t, vec![pair("a", Type::LIT), pair("b", Type::LIT), pair("c", Type::LIT), pair("d", Type::LIT)]);
    // a zero-width space is neither whitespace nor a letter
    assert!(!is_scannable(&"a\u{200b}b".to_string()));
}

#[test]
fn whitespace_is_what_std_calls_whitespace() {
    for u in 0u32..0x3100 {
        if let Some(c) = char::from_u32(u) {
            if c.is_whitespace() {
                let s = format!("x{}y", c);
                assert!(is_scannable(&s), "U+{:04X}", u);
                assert_eq!(toks(&s), vec![pair("x", Type::LIT), pair("y", Type::LIT)], "U+{:04X}", u);
            }
        }
    }
}
