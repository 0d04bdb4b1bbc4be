use pathfinder::config::{
    parse_count, parse_hostname_id, ConfigError, Configuration, Environment, Variable,
};
use pathfinder::text::{numbered, parse_u64, push_decimal};

fn text(value: &str) -> Option<String> {
    Some(value.to_string())
}

fn full() -> Environment {
    Environment {
        group_id: text("7"),
        hostname: text("pathfinder-3-abc"),
        redis_url: text("redis://directory:1234"),
        redis_service_host: text("10.0.0.9"),
        google_cloud_region: text("europe"),
        google_cloud_bucket: text("graphs"),
        google_access_key: text("access"),
        google_secret_key: text("SECRET-REDACTED"),
        redis_connection_count: text("4"),
        worker_count: text("16"),
    }
}

#[test]
fn configuration_from_a_full_environment() {
    let config = Configuration::from_values(full()).unwrap();
    assert_eq!(config.id, 7);
    assert_eq!(config.redis_url, "redis://directory:1234");
    assert_eq!(config.google_region, "europe");
    assert_eq!(config.google_bucket, "graphs");
    assert_eq!(config.google_access_key, "access");
    assert_eq!(config.google_secret_key, "SECRET-REDACTED");
    assert_eq!(config.redis_connection_count, 4);
    assert_eq!(config.worker_count, 16);
}

#[test]
fn id_from_the_hostname() {
    let mut env = full();
    env.group_id = None;
    assert_eq!(Configuration::from_values(env).unwrap().id, 3);
    assert_eq!(parse_hostname_id("pathfinder-12"), Some(12));
    assert_eq!(parse_hostname_id("pathfinder-12-x-y"), Some(12));
    assert_eq!(parse_hostname_id("a--3"), None);
    assert_eq!(parse_hostname_id("pathfinder"), None);
    assert_eq!(parse_hostname_id("pathfinder-x"), None);
    assert_eq!(parse_hostname_id(""), None);
    assert_eq!(parse_hostname_id("-5"), Some(5));
}

#[test]
fn directory_address_from_the_service_host() {
    let mut env = full();
    env.redis_url = None;
    assert_eq!(Configuration::from_values(env).unwrap().redis_url, "redis://10.0.0.9:6379");
}

#[test]
fn what_is_wrong_first_is_reported() {
    let mut env = full();
    env.group_id = text("seven");
    env.worker_count = None;
    assert_eq!(
        Configuration::from_values(env).unwrap_err(),
        ConfigError::Invalid(Variable::GroupId)
    );

    let mut env = full();
    env.group_id = None;
    env.hostname = None;
    env.redis_url = None;
    env.redis_service_host = None;
    assert_eq!(
        Configuration::from_values(env).unwrap_err(),
        ConfigError::Missing(Variable::Hostname)
    );

    let mut env = full();
    env.group_id = None;
    env.hostname = text("nodash");
    assert_eq!(
        Configuration::from_values(env).unwrap_err(),
        ConfigError::Invalid(Variable::Hostname)
    );

    let mut env = full();
    env.redis_url = None;
    env.redis_service_host = None;
    env.google_cloud_region = None;
    assert_eq!(
        Configuration::from_values(env).unwrap_err(),
        ConfigError::Missing(Variable::RedisServiceHost)
    );
}

#[test]
fn each_missing_value_is_named() {
    let cases: Vec<(fn(&mut Environment), ConfigError)> = vec![
        (|e| e.google_cloud_region = None, ConfigError::Missing(Variable::GoogleCloudRegion)),
        (|e| e.google_cloud_bucket = None, ConfigError::Missing(Variable::GoogleCloudBucket)),
        (|e| e.google_access_key = None, ConfigError::Missing(Variable::GoogleAccessKey)),
        (|e| e.google_secret_key = None, ConfigError::Missing(Variable::GoogleSecretKey)),
        (|e| e.redis_connection_count = None, ConfigError::Missing(Variable::RedisConnectionCount)),
        (|e| e.redis_connection_count = text("-1"), ConfigError::Invalid(Variable::RedisConnectionCount)),
        (|e| e.worker_count = None, ConfigError::Missing(Variable::WorkerCount)),
        (|e| e.worker_count = text("many"), ConfigError::Invalid(Variable::WorkerCount)),
    ];
    for (change, expected) in cases {
        let mut env = full();
        change(&mut env);
        assert_eq!(Configuration::from_values(env).unwrap_err(), expected);
    }
}

#[test]
fn numbers_are_read_as_the_standard_library_reads_them() {
    for case in ["0", "7", "+7", "007", "18446744073709551615", "18446744073709551616", "",
        "+", "-1", "1 ", " 1", "1_0", "12a", "++1", "99999999999999999999999"]
    {
        assert_eq!(parse_u64(case), case.parse::<u64>().ok(), "{:?}", case);
        assert_eq!(parse_count(case), case.parse::<usize>().ok(), "{:?}", case);
    }
}

#[test]
fn numbers_are_written_in_decimal() {
    for n in [0u64, 7, 10, 99, 100, 12345, u64::MAX] {
        assert_eq!(numbered("key_", n), format!("key_{}", n));
        let mut out = String::from("x");
        push_decimal(&mut out, n);
        assert_eq!(out, format!("x{}", n));
    }
}
