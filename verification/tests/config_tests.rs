use scratch_server::config::parse_usize;
use scratch_server::Config;

fn args(list: &[&str]) -> Vec<String> {
    list.iter().map(|s| String::from(*s)).collect()
}

#[test]
fn parse_usize_accepts_plain_and_signed_digits() {
    assert_eq!(parse_usize("0"), Some(0));
    assert_eq!(parse_usize("42"), Some(42));
    assert_eq!(parse_usize("+42"), Some(42));
    assert_eq!(parse_usize("18446744073709551615"), Some(usize::MAX));
}

#[test]
fn parse_usize_rejects_what_std_rejects() {
    assert_eq!(parse_usize(""), None);
    assert_eq!(parse_usize("+"), None);
    assert_eq!(parse_usize("-1"), None);
    assert_eq!(parse_usize("12a"), None);
    assert_eq!(parse_usize(" 12"), None);
    // One past the largest word: overflow is a parse failure.
    assert_eq!(parse_usize("18446744073709551616"), None);
    assert_eq!(parse_usize("4.5"), None);
}

#[test]
fn config_defaults_when_no_arguments_are_given() {
    let config = Config::new(args(&["prog"]));
    assert_eq!(config.server_addr, "127.0.0.1:7878");
    assert_eq!(config.requests_to_serve, None);
}

#[test]
fn config_takes_address_and_limit() {
    let config = Config::new(args(&["prog", "0.0.0.0:8080", "25"]));
    assert_eq!(config.server_addr, "0.0.0.0:8080");
    assert_eq!(config.requests_to_serve, Some(25));
}

#[test]
fn config_ignores_unparseable_limit() {
    let config = Config::new(args(&["prog", "0.0.0.0:8080", "many"]));
    assert_eq!(config.server_addr, "0.0.0.0:8080");
    assert_eq!(config.requests_to_serve, None);
}
