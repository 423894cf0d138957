use gunicorn_autoscaler::config::{
    env_var, env_var_bool, env_var_i32, env_var_u64, lookup, Config, ConfigError, Thresholds,
};

fn env(vars: &[(&str, &str)]) -> Vec<(String, String)> {
    vars.iter()
        .map(|(k, v)| (k.to_string(), v.to_string()))
        .collect()
}

#[test]
fn defaults_hold_without_variables() {
    let c = Config::from_env(&env(&[("HOME", "/root")]), 9);
    assert_eq!(c.statsd_addr, "127.0.0.1:9125");
    assert_eq!(c.statsd_prefix, "gunicorn");
    assert_eq!((c.min_workers, c.max_workers), (2, 9));
    assert_eq!((c.window_seconds, c.tick_ms, c.idle_seconds), (20, 1000, 60));
    assert_eq!((c.up_cooldown_ms, c.down_cooldown_ms), (2000, 15000));
    assert_eq!((c.max_step_up, c.no_downscale_for_ms_after_up), (16, 60000));
    assert_eq!((c.burst_enabled, c.burst_window_seconds), (true, 3));
    assert_eq!((c.burst_add_workers, c.burst_cooldown_ms), (8, 5000));
    assert_eq!((c.map_uvicorn_deprecated, c.auto_set_graceful_timeout), (false, true));
}

#[test]
fn every_variable_is_read() {
    let c = Config::from_env(
        &env(&[
            ("GUNICORN_AUTOSCALER_STATSD_ADDR", "0.0.0.0:1"),
            ("GUNICORN_AUTOSCALER_STATSD_PREFIX", "web"),
            ("GUNICORN_AUTOSCALER_MIN_WORKERS", "3"),
            ("GUNICORN_AUTOSCALER_MAX_WORKERS", "30"),
            ("GUNICORN_AUTOSCALER_WINDOW_SECONDS", "4"),
            ("GUNICORN_AUTOSCALER_TICK_MS", "5"),
            ("GUNICORN_AUTOSCALER_IDLE_SECONDS", "6"),
            ("GUNICORN_AUTOSCALER_UP_COOLDOWN_MS", "7"),
            ("GUNICORN_AUTOSCALER_DOWN_COOLDOWN_MS", "8"),
            ("GUNICORN_AUTOSCALER_MAX_STEP_UP", "-9"),
            ("GUNICORN_AUTOSCALER_NO_DOWNSCALE_MS_AFTER_UP", "10"),
            ("GUNICORN_AUTOSCALER_BURST_ENABLED", "no"),
            ("GUNICORN_AUTOSCALER_BURST_WINDOW_SECONDS", "11"),
            ("GUNICORN_AUTOSCALER_BURST_ADD_WORKERS", "12"),
            ("GUNICORN_AUTOSCALER_BURST_COOLDOWN_MS", "13"),
            ("GUNICORN_AUTOSCALER_MAP_UVICORN_DEPRECATED", "TRUE"),
            ("GUNICORN_AUTOSCALER_AUTO_SET_GRACEFUL_TIMEOUT", "false"),
        ]),
        5,
    );
    assert_eq!((c.statsd_addr.as_str(), c.statsd_prefix.as_str()), ("0.0.0.0:1", "web"));
    assert_eq!((c.min_workers, c.max_workers), (3, 30));
    assert_eq!((c.window_seconds, c.tick_ms, c.idle_seconds), (4, 5, 6));
    assert_eq!((c.up_cooldown_ms, c.down_cooldown_ms), (7, 8));
    assert_eq!((c.max_step_up, c.no_downscale_for_ms_after_up), (-9, 10));
    assert_eq!((c.burst_enabled, c.burst_window_seconds), (false, 11));
    assert_eq!((c.burst_add_workers, c.burst_cooldown_ms), (12, 13));
    assert_eq!((c.map_uvicorn_deprecated, c.auto_set_graceful_timeout), (true, false));
}

#[test]
fn unreadable_numbers_fall_back() {
    let vars = env(&[("A", "x"), ("B", ""), ("C", " 1"), ("D", "2147483648"), ("E", "-1")]);
    assert_eq!(env_var_i32(&vars, "A", 4), 4);
    assert_eq!(env_var_i32(&vars, "B", 4), 4);
    assert_eq!(env_var_i32(&vars, "C", 4), 4);
    assert_eq!(env_var_i32(&vars, "D", 4), 4);
    assert_eq!(env_var_i32(&vars, "E", 4), -1);
    assert_eq!(env_var_u64(&vars, "D", 4), 2147483648);
    assert_eq!(env_var_u64(&vars, "E", 4), 4);
}

#[test]
fn switches_know_five_affirmations() {
    for yes in ["1", "true", "TRUE", "yes", "YES"] {
        assert!(env_var_bool(&env(&[("S", yes)]), "S", false));
    }
    for no in ["0", "True", "on", "", "y", "1 "] {
        assert!(!env_var_bool(&env(&[("S", no)]), "S", true));
    }
    assert!(env_var_bool(&env(&[]), "S", true));
    assert!(!env_var_bool(&env(&[]), "S", false));
}

#[test]
fn other_variables_do_not_matter() {
    let vars = env(&[("AB", "1"), ("A", "2"), ("a", "3"), ("A", "4")]);
    assert_eq!(lookup(&vars, "A"), Some("2".to_string()));
    assert_eq!(lookup(&vars, "B"), None);
    assert_eq!(env_var(&vars, "a", "d"), "3");
    assert_eq!(env_var(&vars, "b", "d"), "d");
    let fewer = env(&[("A", "2"), ("A", "4")]);
    assert_eq!(lookup(&fewer, "A"), lookup(&vars, "A"));
}

#[test]
fn limits_are_validated() {
    let with = |min: &str, max: &str| {
        Config::from_env(
            &env(&[
                ("GUNICORN_AUTOSCALER_MIN_WORKERS", min),
                ("GUNICORN_AUTOSCALER_MAX_WORKERS", max),
            ]),
            5,
        )
        .validate()
    };
    assert_eq!(with("1", "1"), Ok(()));
    assert_eq!(with("2", "8"), Ok(()));
    assert_eq!(with("0", "8"), Err(ConfigError::MinWorkers));
    assert_eq!(with("0", "-8"), Err(ConfigError::MinWorkers));
    assert_eq!(with("3", "2"), Err(ConfigError::MaxWorkers));
}

#[test]
fn thresholds_are_looked_up() {
    let t = Thresholds::from_env(&env(&[
        ("GUNICORN_AUTOSCALER_TARGET_CONC_PER_WORKER", "1.5"),
        ("GUNICORN_AUTOSCALER_SLO_P95_MS", "250"),
        ("GUNICORN_AUTOSCALER_BURST_RPS_JUMP", "x"),
    ]));
    assert_eq!(t.target_conc_per_worker.as_deref(), Some("1.5"));
    assert_eq!(t.slo_p95_ms.as_deref(), Some("250"));
    assert_eq!(t.burst_rps_jump.as_deref(), Some("x"));
    assert_eq!(t.burst_min_rps, None);
    let t = Thresholds::from_env(&env(&[("GUNICORN_AUTOSCALER_BURST_MIN_RPS", "7")]));
    assert_eq!(t.burst_min_rps.as_deref(), Some("7"));
    assert_eq!(t.slo_p95_ms, None);
}
