use crokd::config::{
    Config, DEFAULT_HTTP_ADDR, DEFAULT_VERSION, DEFAULT_WORKER_POOL_SIZE, HTTP_ADDR_KEY,
    WORKER_POOL_SIZE_KEY,
};
use crokd::env::{get, get_with_default, lookup, Environment};
use crokd::error::Error;
use crokd::text::ParseIntError;

#[test]
fn lookup_in_empty_environment_finds_nothing() {
    let env = Environment::new();
    assert_eq!(lookup(&env, "HOME"), None);
    assert_eq!(lookup(&env, ""), None);
}

#[test]
fn lookup_finds_what_was_set() {
    let mut env = Environment::new();
    env.set("A", "1");
    env.set("B", "");
    assert_eq!(lookup(&env, "A"), Some(String::from("1")));
    assert_eq!(lookup(&env, "B"), Some(String::new()));
    assert_eq!(lookup(&env, "C"), None);
    assert_eq!(lookup(&env, "a"), None);
}

#[test]
fn set_replaces_an_earlier_value_and_keeps_the_others() {
    let mut env = Environment::new();
    env.set("A", "1");
    env.set("B", "2");
    env.set("A", "3");
    assert_eq!(lookup(&env, "A"), Some(String::from("3")));
    assert_eq!(lookup(&env, "B"), Some(String::from("2")));
}

#[test]
fn get_with_default_prefers_the_variable() {
    let mut env = Environment::new();
    assert_eq!(get_with_default(&env, "A", "fallback"), "fallback");
    env.set("A", "value");
    assert_eq!(get_with_default(&env, "A", "fallback"), "value");
    env.set("A", "");
    assert_eq!(get_with_default(&env, "A", "fallback"), "");
}

#[test]
fn get_falls_back_to_the_empty_text() {
    let mut env = Environment::new();
    assert_eq!(get(&env, "A"), "");
    env.set("A", "value");
    assert_eq!(get(&env, "A"), "value");
}

#[test]
fn default_config() {
    let cfg = Config::default();
    assert_eq!(cfg.version, "0.0.1");
    assert_eq!(cfg.http_addr, "127.0.0.1:8080");
    assert_eq!(cfg.worker_pool_size, 10);
    assert_eq!(DEFAULT_VERSION, "0.0.1");
    assert_eq!(DEFAULT_HTTP_ADDR, "127.0.0.1:8080");
    assert_eq!(DEFAULT_WORKER_POOL_SIZE, 10);
}

#[test]
fn config_from_empty_environment_has_the_defaults() {
    let cfg = Config::from_env(&Environment::new(), "1.2.3").unwrap();
    assert_eq!(
        cfg,
        Config {
            version: String::from("1.2.3"),
            http_addr: String::from("127.0.0.1:8080"),
            worker_pool_size: 10,
        }
    );
}

#[test]
fn config_reads_its_variables() {
    let mut env = Environment::new();
    env.set(HTTP_ADDR_KEY, "0.0.0.0:9000");
    env.set(WORKER_POOL_SIZE_KEY, "4");
    env.set("UNRELATED", "x");
    let cfg = Config::from_env(&env, "0.0.1").unwrap();
    assert_eq!(cfg.http_addr, "0.0.0.0:9000");
    assert_eq!(cfg.worker_pool_size, 4);
    assert_eq!(HTTP_ADDR_KEY, "CROKD_HTTP_ADDR");
    assert_eq!(WORKER_POOL_SIZE_KEY, "CROKD_WORKER_POOL_SIZE");
}

#[test]
fn config_takes_a_pool_size_of_zero_as_it_stands() {
    let mut env = Environment::new();
    env.set(WORKER_POOL_SIZE_KEY, "0");
    assert_eq!(Config::from_env(&env, "v").unwrap().worker_pool_size, 0);
}

#[test]
fn config_rejects_a_pool_size_that_is_no_number() {
    let mut env = Environment::new();
    env.set(WORKER_POOL_SIZE_KEY, "many");
    assert_eq!(
        Config::from_env(&env, "v"),
        Err(Error::InvalidPoolSize(ParseIntError::InvalidDigit))
    );
    env.set(WORKER_POOL_SIZE_KEY, "");
    assert_eq!(
        Config::from_env(&env, "v"),
        Err(Error::InvalidPoolSize(ParseIntError::Empty))
    );
    env.set(WORKER_POOL_SIZE_KEY, "-3");
    assert_eq!(
        Config::from_env(&env, "v"),
        Err(Error::InvalidPoolSize(ParseIntError::InvalidDigit))
    );
    env.set(WORKER_POOL_SIZE_KEY, "340282366920938463463374607431768211456");
    assert_eq!(
        Config::from_env(&env, "v"),
        Err(Error::InvalidPoolSize(ParseIntError::PosOverflow))
    );
}

#[test]
fn error_messages() {
    assert_eq!(Error::EmptyPool.to_string(), "N");
    assert_eq!(
        Error::InvalidPoolSize(ParseIntError::Empty).to_string(),
        "invalid worker pool size: cannot parse integer from empty string"
    );
    assert_eq!(
        Error::InvalidPoolSize(ParseIntError::InvalidDigit).to_string(),
        "invalid worker pool size: invalid digit found in string"
    );
    assert_eq!(
        Error::InvalidPoolSize(ParseIntError::PosOverflow).to_string(),
        "invalid worker pool size: number too large to fit in target type"
    );
    assert_eq!(
        Error::Bind(String::from("Address already in use")).to_string(),
        "bind address: Address already in use"
    );
}

#[test]
fn parse_error_messages_are_those_of_the_standard_parser() {
    for (text, kind) in [
        ("", ParseIntError::Empty),
        ("x", ParseIntError::InvalidDigit),
        ("99999999999999999999999999", ParseIntError::PosOverflow),
    ] {
        let std_message = text.parse::<usize>().unwrap_err().to_string();
        assert_eq!(
            Error::InvalidPoolSize(kind).to_string(),
            format!("invalid worker pool size: {}", std_message)
        );
    }
}
