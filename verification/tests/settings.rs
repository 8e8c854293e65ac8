use std::path::PathBuf;

use poe_bridge::settings::{
    bind_address, get_config_path, get_env_or_default, max_request_size, parse_unsigned, server_request_size,
};

const NUMBERS: [&str; 24] = [
    "", "0", "7", "007", "+7", "-7", "+", "-", "--1", "+-1", " 7", "7 ", "1_000", "0x10", "１", "1.0",
    "2147483647", "2147483648", "-2147483648", "-2147483649", "18446744073709551615",
    "18446744073709551616", "99999999999999999999999999", "-0",
];

#[test]
fn numbers_are_read_as_std_reads_them() {
    for text in NUMBERS {
        assert_eq!(parse_unsigned(text, u64::MAX), text.parse::<u64>().ok(), "{}", text);
        assert_eq!(
            max_request_size(Some(text)),
            text.parse::<usize>().unwrap_or(1024 * 1024 * 1024),
            "{}",
            text
        );
    }
}

#[test]
fn server_limit_is_a_signed_number() {
    for text in NUMBERS {
        let number = text.parse::<i32>().unwrap_or(1024 * 1024 * 1024);
        assert_eq!(server_request_size(text), u64::try_from(number).ok(), "{}", text);
    }
    assert_eq!(server_request_size("-1"), None);
    assert_eq!(server_request_size("5000000000"), Some(1073741824));
}

#[test]
fn request_limit_defaults_to_a_gibibyte() {
    assert_eq!(max_request_size(None), 1073741824);
    assert_eq!(max_request_size(Some("lots")), 1073741824);
    assert_eq!(max_request_size(Some("4096")), 4096);
}

#[test]
fn variables_have_defaults() {
    assert_eq!(get_env_or_default(None, "8080"), "8080");
    assert_eq!(get_env_or_default(Some(String::new()), "8080"), "");
    assert_eq!(get_env_or_default(Some("9000".to_string()), "8080"), "9000");
}

#[test]
fn address_joins_host_and_port() {
    assert_eq!(bind_address("0.0.0.0", "8080"), "0.0.0.0:8080");
}

#[test]
fn config_path_is_joined_as_std_joins_it() {
    for dir in ["", ".", "./", "/etc", "/etc/", "a/b"] {
        for name in ["models.yaml", "/abs/models.yaml", "sub/models.yaml", ""] {
            let mut path = PathBuf::from(dir);
            path.push(name);
            assert_eq!(get_config_path(Some(dir), name), path.to_str().unwrap());
        }
    }
    assert_eq!(get_config_path(None, "models.yaml"), "./models.yaml");
}
