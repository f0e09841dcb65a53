use runner::env_file::{parse, EnvMap};
use runner::utilities::ErrorKind;

fn lines(text: &[&str]) -> Vec<String> {
    text.iter().map(|l| l.to_string()).collect()
}

#[test]
fn comments_and_blank_lines_are_ignored() {
    let map = parse(
        "vars.env".to_string(),
        lines(&["# a comment", "", "   ", "A=1", "  # indented comment", " B = 2 "]),
    )
    .unwrap();
    assert_eq!(map.get("A"), Some("1".to_string()));
    assert_eq!(map.get("B "), Some(" 2".to_string()));
    assert_eq!(map.get("B"), None);
    assert_eq!(map.entries().len(), 2);
}

#[test]
fn a_line_is_split_at_its_first_equals_sign() {
    let map = parse("f".to_string(), lines(&["URL=http://x/?a=b", "EMPTY=", "=v"])).unwrap();
    assert_eq!(map.get("URL"), Some("http://x/?a=b".to_string()));
    assert_eq!(map.get("EMPTY"), Some("".to_string()));
    assert_eq!(map.get(""), Some("v".to_string()));
}

#[test]
fn a_later_assignment_replaces_an_earlier_one() {
    let map = parse("f".to_string(), lines(&["A=1", "B=2", "A=3"])).unwrap();
    assert_eq!(map.get("A"), Some("3".to_string()));
    assert_eq!(map.get("B"), Some("2".to_string()));
}

#[test]
fn a_line_without_equals_sign_is_an_error_with_its_number() {
    let e = parse("vars.env".to_string(), lines(&["A=1", "# c", "", "oops", "B=2", "bad"]))
        .unwrap_err();
    assert_eq!(e.kind, ErrorKind::ConfigError);
    assert_eq!(e.message, "invalid line 4 in file vars.env");
}

#[test]
fn an_empty_file_gives_an_empty_environment() {
    let map = parse("f".to_string(), Vec::new()).unwrap();
    assert_eq!(map.entries().len(), 0);
    assert_eq!(map.get("A"), None);
}

#[test]
fn an_environment_keeps_what_is_inserted() {
    let mut map = EnvMap::new();
    map.insert("K".to_string(), "v".to_string());
    map.insert("K".to_string(), "w".to_string());
    assert_eq!(map.get("K"), Some("w".to_string()));
    assert_eq!(map.entries(), &vec![("K".to_string(), "v".to_string()), ("K".to_string(), "w".to_string())]);
}
