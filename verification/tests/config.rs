use tachyon::config::{on_file_change, BackendConfig, Config, ConfigManager, FeatureFlags, FileChange, WatchAction};

fn config() -> Config {
    Config {
        server_port: 8080,
        timeout_ms: 8000,
        max_connections: 1000,
        feature_flags: FeatureFlags {
            enable_caching: false,
            enable_rate_limiting: false,
            rate_limit_per_second: 100,
        },
        backends: vec![BackendConfig { address: "127.0.0.1:9001".to_string(), weight: 10 }],
    }
}

fn broken() -> Config {
    Config { timeout_ms: 0, ..config() }
}

#[test]
fn validate_accepts_a_config_in_order() {
    assert_eq!(config().validate(), Ok(()));
}

#[test]
fn validate_names_each_problem() {
    assert_eq!(
        Config { server_port: 0, ..config() }.validate(),
        Err("server_port must be non-zero".to_string())
    );
    assert_eq!(
        Config { timeout_ms: 0, ..config() }.validate(),
        Err("timeout_ms must be non-zero".to_string())
    );
    assert_eq!(
        Config { max_connections: 0, ..config() }.validate(),
        Err("max_connections must be non-zero".to_string())
    );
    let mut limited = config();
    limited.feature_flags.enable_rate_limiting = true;
    assert_eq!(limited.validate(), Ok(()));
    limited.feature_flags.rate_limit_per_second = 0;
    assert_eq!(
        limited.validate(),
        Err("rate_limit_per_second must be set when enable_rate_limiting is enabled".to_string())
    );
    limited.feature_flags.enable_rate_limiting = false;
    assert_eq!(limited.validate(), Ok(()));
}

#[test]
fn validate_names_the_first_of_several_problems() {
    let c = Config { server_port: 0, timeout_ms: 0, max_connections: 0, ..config() };
    assert_eq!(c.validate(), Err("server_port must be non-zero".to_string()));
}

#[test]
fn defaults_are_in_order() {
    let c = Config::default();
    assert_eq!(c.server_port, 8080);
    assert_eq!(c.timeout_ms, 8000);
    assert_eq!(c.max_connections, 1000);
    assert!(!c.feature_flags.enable_caching);
    assert!(!c.feature_flags.enable_rate_limiting);
    assert_eq!(c.feature_flags.rate_limit_per_second, 100);
    assert!(c.backends.is_empty());
    assert_eq!(c.validate(), Ok(()));
}

#[test]
fn manager_starts_with_what_was_read() {
    let m = ConfigManager::new("config.toml", Ok(config())).ok().unwrap();
    assert_eq!(m.path(), "config.toml");
    assert_eq!(m.get().server_port, 8080);
    assert_eq!(m.get().backends[0].address, "127.0.0.1:9001");
}

#[test]
fn manager_does_not_start_without_a_config_in_order() {
    assert_eq!(
        ConfigManager::new("config.toml", Err("no such file".to_string())).err(),
        Some("no such file".to_string())
    );
    assert_eq!(
        ConfigManager::new("config.toml", Ok(broken())).err(),
        Some("Valid startup configuration: timeout_ms must be non-zero".to_string())
    );
}

#[test]
fn reload_with_validation_takes_a_config_in_order() {
    let mut m = ConfigManager::new("config.toml", Ok(config())).ok().unwrap();
    let snapshot = m.get();
    assert_eq!(m.reload_with_validation(Ok(Config { server_port: 9090, ..config() })), Ok(()));
    assert_eq!(m.get().server_port, 9090);
    assert_eq!(snapshot.server_port, 8080);
    assert_eq!(m.path(), "config.toml");
}

#[test]
fn reload_with_validation_keeps_the_config_when_the_file_is_bad() {
    let mut m = ConfigManager::new("config.toml", Ok(config())).ok().unwrap();
    assert_eq!(
        m.reload_with_validation(Ok(broken())),
        Err("timeout_ms must be non-zero".to_string())
    );
    assert_eq!(m.get().timeout_ms, 8000);
    assert_eq!(m.reload_with_validation(Err("unreadable".to_string())), Err("unreadable".to_string()));
    assert_eq!(m.get().timeout_ms, 8000);
    assert_eq!(m.reload_with_validation(Ok(Config { timeout_ms: 7, ..config() })), Ok(()));
    assert_eq!(m.get().timeout_ms, 7);
}

#[test]
fn reload_takes_anything_that_can_be_read() {
    let mut m = ConfigManager::new("config.toml", Ok(config())).ok().unwrap();
    assert_eq!(m.reload(Err("unreadable".to_string())), Err("unreadable".to_string()));
    assert_eq!(m.get().timeout_ms, 8000);
    assert_eq!(m.reload(Ok(broken())), Ok(()));
    assert_eq!(m.get().timeout_ms, 0);
}

#[test]
fn only_a_modified_file_is_read_again() {
    assert_eq!(on_file_change(FileChange::Modify), WatchAction::ReloadAfter { millis: 150 });
    for change in [
        FileChange::Any,
        FileChange::Access,
        FileChange::Create,
        FileChange::Remove,
        FileChange::Other,
    ] {
        assert_eq!(on_file_change(change), WatchAction::Ignore);
    }
}
