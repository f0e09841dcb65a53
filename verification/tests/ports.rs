use runner::script::process_host_port;
use runner::utilities::ErrorKind;

fn check_host_port(host: &str, port: u16, input: &str, name: &String) {
    let result = process_host_port(&input.to_string(), name);
    assert!(result.is_ok());
    let (h, p) = result.unwrap();
    assert_eq!(h.as_str(), host);
    assert_eq!(p, port);
}

#[test]
fn test_process_host_port() {
    let name = "test".to_string();
    check_host_port("localhost", 1234, "1234", &name);
    check_host_port("server", 1234, "server:1234", &name);
    assert!(process_host_port(&"aaaa", &name).is_err());
    assert!(process_host_port(&"123456", &name).is_err());
    assert!(process_host_port(&"aaaa:123456", &name).is_err());
    assert!(process_host_port(&"aaaa:1234:", &name).is_err());
}

#[test]
fn a_port_alone_is_one_of_localhost() {
    let name = "s1".to_string();
    assert_eq!(process_host_port("7777", &name).unwrap(), ("localhost".to_string(), 7777));
    assert_eq!(process_host_port("1", &name).unwrap(), ("localhost".to_string(), 1));
    assert_eq!(process_host_port("65535", &name).unwrap(), ("localhost".to_string(), 65535));
}

#[test]
fn a_host_and_a_port_are_split_at_the_colon() {
    let name = "s1".to_string();
    assert_eq!(process_host_port("host:1234", &name).unwrap(), ("host".to_string(), 1234));
    assert_eq!(process_host_port(":80", &name).unwrap(), ("".to_string(), 80));
    assert_eq!(process_host_port("db.local:+5432", &name).unwrap(), ("db.local".to_string(), 5432));
}

#[test]
fn ports_out_of_range_are_rejected() {
    let name = "s1".to_string();
    for input in ["0", "65536", "-1", "host:0", "host:70000"] {
        let e = process_host_port(input, &name).unwrap_err();
        assert_eq!(e.kind, ErrorKind::ConfigError);
        assert_eq!(e.message, "port value is out of range is invalid in script s1");
    }
}

#[test]
fn ports_that_are_no_numbers_are_rejected() {
    let name = "s1".to_string();
    for input in ["aaaa", "", "host:", "12x", "host:1 2", "99999999999999999999999"] {
        let e = process_host_port(input, &name).unwrap_err();
        assert_eq!(e.kind, ErrorKind::ConfigError);
        assert_eq!(e.message, "port number is invalid in wait_for_ports in script s1");
    }
}

#[test]
fn more_than_one_colon_is_rejected() {
    let name = "s1".to_string();
    for input in ["a:1:2", "aaaa:1234:", "::"] {
        let e = process_host_port(input, &name).unwrap_err();
        assert_eq!(e.kind, ErrorKind::ConfigError);
        assert_eq!(e.message, "more than one : in wait_for_ports in script s1");
    }
}
