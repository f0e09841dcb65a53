use runner::utilities::{build_invalid_data_error_str, ErrorKind};

#[test]
fn invalid_data_error_keeps_the_text() {
    let e = build_invalid_data_error_str("empty services directive");
    assert_eq!(e.kind, ErrorKind::ConfigError);
    assert_eq!(e.message, "empty services directive");
}
