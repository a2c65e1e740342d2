use lib::text::{parse_usize, split_whitespace};

#[test]
fn split_on_whitespace() {
    let w = split_whitespace(&"  7 { AND , EOF }\treduce 8 ".to_string());
    assert_eq!(w, vec!["7", "{", "AND", ",", "EOF", "}", "reduce", "8"]);
    assert!(split_whitespace(&"   ".to_string()).is_empty());
}

#[test]
fn decimal_numbers() {
    assert_eq!(parse_usize(&"42".to_string()), Some(42));
    assert_eq!(parse_usize(&"+7".to_string()), Some(7));
    assert_eq!(parse_usize(&"0".to_string()), Some(0));
    assert_eq!(parse_usize(&"".to_string()), None);
    assert_eq!(parse_usize(&"+".to_string()), None);
    assert_eq!(parse_usize(&"-1".to_string()), None);
    assert_eq!(parse_usize(&"1a".to_string()), None);
    assert_eq!(parse_usize(&"99999999999999999999999".to_string()), None);
    assert_eq!(parse_usize(&usize::MAX.to_string()), Some(usize::MAX));
}
