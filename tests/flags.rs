use cliargs::{
    first_missing_flag, parse_flags, same_text, split_tokens, verify_flags, Flag, FlagError,
    FlagMap, ParsedFlags, FLAG_PREFIX,
};

fn toks(line: &str) -> Vec<String> {
    split_tokens(line)
}

fn parse(line: &str) -> Result<ParsedFlags, FlagError> {
    let t = toks(line);
    parse_flags(&t, FLAG_PREFIX)
}

fn value(map: &FlagMap, id: &str) -> Option<Option<String>> {
    map.get(id)
}

#[test]
fn split_tokens_on_ascii_whitespace() {
    assert_eq!(toks("  help \t -c\nhelp\r\n"), vec!["help", "-c", "help"]);
    assert_eq!(toks("a"), vec!["a"]);
}

#[test]
fn split_tokens_of_blank_lines_is_empty() {
    assert!(toks("").is_empty());
    assert!(toks("   ").is_empty());
    assert!(toks("\t\n ").is_empty());
}

#[test]
fn two_flags_with_values() {
    let p = parse("-a v1 -b v2").ok().unwrap();
    assert_eq!(p.flags.len(), 2);
    assert_eq!(value(&p.flags, "a"), Some(Some("v1".to_string())));
    assert_eq!(value(&p.flags, "b"), Some(Some("v2".to_string())));
    assert!(p.dropped.is_empty());
}

#[test]
fn repeated_flag_is_a_duplicate_flag() {
    match parse("-a v1 -a v2") {
        Err(FlagError::DuplicateFlag(id)) => assert_eq!(id, "a"),
        _ => panic!("expected a duplicate flag"),
    }
}

#[test]
fn repeated_flag_without_values_is_a_duplicate_flag() {
    match parse("-a -a") {
        Err(FlagError::DuplicateFlag(id)) => assert_eq!(id, "a"),
        _ => panic!("expected a duplicate flag"),
    }
}

#[test]
fn second_value_is_a_duplicate_value() {
    match parse("-a v1 v2") {
        Err(FlagError::DuplicateValue(id)) => assert_eq!(id, "a"),
        _ => panic!("expected a duplicate value"),
    }
}

#[test]
fn trailing_flag_is_present_without_value() {
    let p = parse("-a").ok().unwrap();
    assert_eq!(p.flags.len(), 1);
    assert!(p.flags.contains("a"));
    assert_eq!(value(&p.flags, "a"), Some(None));
}

#[test]
fn flag_followed_by_flag_has_no_value() {
    let p = parse("-a -b x").ok().unwrap();
    assert_eq!(value(&p.flags, "a"), Some(None));
    assert_eq!(value(&p.flags, "b"), Some(Some("x".to_string())));
}

#[test]
fn leading_value_is_dropped() {
    let p = parse("v1 -a v2").ok().unwrap();
    assert_eq!(p.flags.len(), 1);
    assert_eq!(value(&p.flags, "a"), Some(Some("v2".to_string())));
    assert_eq!(p.dropped, vec!["v1".to_string()]);
}

#[test]
fn no_tokens_give_no_flags() {
    let p = parse("").ok().unwrap();
    assert_eq!(p.flags.len(), 0);
    assert!(!p.flags.contains("a"));
    assert_eq!(value(&p.flags, "a"), None);
}

fn flag(identifier: &'static str, required: bool) -> Flag {
    Flag { identifier, flag_help: "text", required }
}

#[test]
fn validator_accepts_empty_map_without_required_flags() {
    let p = parse("").ok().unwrap();
    assert!(verify_flags(&p.flags, &vec![]));
    assert!(verify_flags(&p.flags, &vec![flag("a", false), flag("b", false)]));
}

#[test]
fn validator_rejects_missing_required_flag() {
    let p = parse("-a 1").ok().unwrap();
    let flags = vec![flag("a", true), flag("b", false), flag("c", true)];
    assert!(!verify_flags(&p.flags, &flags));
    assert_eq!(first_missing_flag(&p.flags, &flags), Some(2));
}

#[test]
fn validator_counts_flag_without_value_as_present() {
    let p = parse("-a").ok().unwrap();
    assert!(verify_flags(&p.flags, &vec![flag("a", true)]));
    assert_eq!(first_missing_flag(&p.flags, &vec![flag("a", true)]), None);
}

#[test]
fn validator_ignores_unknown_flags() {
    let p = parse("-a 1 -zz 2").ok().unwrap();
    assert!(verify_flags(&p.flags, &vec![flag("a", true)]));
}

#[test]
fn same_text_compares_characters() {
    assert!(same_text("abc", "abc"));
    assert!(!same_text("abc", "abd"));
    assert!(!same_text("abc", "ab"));
    assert!(same_text("", ""));
}

#[test]
fn several_leading_values_are_dropped() {
    let p = parse("v1 v2 -a x -b").ok().unwrap();
    assert_eq!(p.dropped, vec!["v1".to_string(), "v2".to_string()]);
    assert_eq!(value(&p.flags, "a"), Some(Some("x".to_string())));
    assert_eq!(value(&p.flags, "b"), Some(None));
    match parse("v1 -a x y") {
        Err(FlagError::DuplicateValue(id)) => assert_eq!(id, "a"),
        _ => panic!("expected a duplicate value"),
    }
}
