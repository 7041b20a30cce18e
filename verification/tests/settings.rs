use bini_server::settings::{
    api_dir, default_port, dist_dir, env_u64, env_usize, setting_names, Config, DistDir, Vars,
};

fn vars(entries: &[(&str, &str)]) -> Vars {
    let mut vars = Vars::new();
    for (name, value) in entries {
        vars.set(name.to_string(), value.to_string());
    }
    vars
}

#[test]
fn later_value_of_a_variable_replaces_the_earlier_one() {
    let vars = vars(&[("A", "1"), ("B", "2"), ("A", "3")]);
    assert_eq!(vars.get("A"), Some("3".to_string()));
    assert_eq!(vars.get("B"), Some("2".to_string()));
    assert_eq!(vars.get("C"), None);
}

#[test]
fn defaults_hold_without_variables() {
    let none = vars(&[]);
    let config = Config::from_env(&none);
    assert_eq!(config.body_timeout_secs, 30);
    assert_eq!(config.handler_timeout_secs, 30);
    assert_eq!(config.body_size_limit, 10485760);
    assert_eq!(config.pool_max_idle_per_host, 32);
    assert_eq!(default_port(&none), 3000);
    assert_eq!(api_dir(&none), "src/app/api");
    assert!(matches!(dist_dir(&none), DistDir::Below(path) if path == "dist"));
}

#[test]
fn variables_override_the_defaults() {
    let set = vars(&[
        ("PORT", "8080"),
        ("BINI_API_DIR", "src/api"),
        ("BINI_DIST_DIR", "build"),
        ("BINI_BODY_TIMEOUT_SECS", "5"),
        ("BINI_HANDLER_TIMEOUT_SECS", "+6"),
        ("BINI_BODY_SIZE_LIMIT", "7"),
        ("BINI_POOL_MAX_IDLE", "8"),
    ]);
    let config = Config::from_env(&set);
    assert_eq!(
        config,
        Config {
            body_timeout_secs: 5,
            handler_timeout_secs: 6,
            body_size_limit: 7,
            pool_max_idle_per_host: 8,
        }
    );
    assert_eq!(default_port(&set), 8080);
    assert_eq!(api_dir(&set), "src/api");
    assert!(matches!(dist_dir(&set), DistDir::Configured(path) if path == "build"));
}

#[test]
fn unreadable_numbers_leave_the_defaults() {
    let set = vars(&[
        ("PORT", "65536"),
        ("BINI_BODY_TIMEOUT_SECS", "-1"),
        ("BINI_HANDLER_TIMEOUT_SECS", "18446744073709551616"),
        ("BINI_BODY_SIZE_LIMIT", "10MB"),
        ("BINI_POOL_MAX_IDLE", ""),
    ]);
    assert_eq!(Config::from_env(&set), Config::from_env(&vars(&[])));
    assert_eq!(default_port(&set), 3000);
}

#[test]
fn single_settings_are_read() {
    let set = vars(&[("N", "18446744073709551615")]);
    assert_eq!(env_u64(&set, "N", 1), u64::MAX);
    assert_eq!(env_u64(&set, "M", 1), 1);
    assert_eq!(env_usize(&set, "N", 1), usize::MAX);
    assert_eq!(env_usize(&set, "M", 1), 1);
}

#[test]
fn setting_names_are_complete() {
    assert_eq!(
        setting_names(),
        vec![
            "PORT",
            "BINI_API_DIR",
            "BINI_DIST_DIR",
            "BINI_BODY_TIMEOUT_SECS",
            "BINI_HANDLER_TIMEOUT_SECS",
            "BINI_BODY_SIZE_LIMIT",
            "BINI_POOL_MAX_IDLE",
        ]
    );
}
