use gunicorn_autoscaler::args::{
    extract_timeout, gunicorn_args, has_flag, map_worker_class, maybe_add_graceful_timeout,
    read_command_line, strip_managed_flags, UsageError,
};
use gunicorn_autoscaler::config::Config;

fn list(items: &[&str]) -> Vec<String> {
    items.iter().map(|s| s.to_string()).collect()
}

fn settings(vars: &[(&str, &str)]) -> Config {
    let vars: Vec<(String, String)> = vars
        .iter()
        .map(|(k, v)| (k.to_string(), v.to_string()))
        .collect();
    Config::from_env(&vars, 5)
}

#[test]
fn managed_flags_are_stripped_with_their_values() {
    let args = list(&[
        "--workers", "4", "--bind", "0.0.0.0:8000", "-w", "2", "--threads=8", "--pid", "/run/x",
        "--statsd-host=h:1", "--statsd-prefix", "p", "--worker-connections", "10", "--reload",
    ]);
    assert_eq!(
        strip_managed_flags(args),
        list(&["--bind", "0.0.0.0:8000", "--reload"])
    );
}

#[test]
fn each_attached_managed_setting_is_stripped() {
    let args = list(&[
        "--workers=1", "--threads=1", "--worker-connections=1", "--statsd-host=h",
        "--statsd-prefix=p", "--pid=f", "--bind=b",
    ]);
    assert_eq!(strip_managed_flags(args), list(&["--bind=b"]));
}

#[test]
fn a_managed_flag_takes_the_next_argument_whatever_it_is() {
    assert_eq!(
        strip_managed_flags(list(&["--workers", "--bind", "x"])),
        list(&["x"])
    );
    assert_eq!(strip_managed_flags(list(&["a", "--pid"])), list(&["a"]));
    assert_eq!(strip_managed_flags(list(&[])), list(&[]));
}

#[test]
fn similar_flags_are_kept() {
    let args = list(&["--worker-class", "gevent", "--workersx", "-W", "workers=3", "--pidfile"]);
    assert_eq!(strip_managed_flags(args.clone()), args);
}

#[test]
fn stripping_twice_is_stripping_once() {
    let once = strip_managed_flags(list(&["-w", "-w", "-w", "--pid", "k", "--pid", "--threads="]));
    assert_eq!(once, list(&["k"]));
    assert_eq!(strip_managed_flags(once.clone()), once);
}

#[test]
fn deprecated_worker_class_is_mapped() {
    let args = list(&["-k", "uvicorn.workers.UvicornWorker", "--worker-class", "gevent"]);
    let want = list(&["-k", "uvicorn_worker.UvicornWorker", "--worker-class", "gevent"]);
    assert_eq!(map_worker_class(args.clone(), true), want);
    assert_eq!(map_worker_class(want.clone(), true), want);
    assert_eq!(map_worker_class(args.clone(), false), args);
}

#[test]
fn worker_class_elsewhere_is_not_mapped() {
    let args = list(&[
        "uvicorn.workers.UvicornWorker", "-k", "-k", "uvicorn.workers.UvicornWorker", "-k",
    ]);
    assert_eq!(map_worker_class(args.clone(), true), args);
    let attached = list(&["--worker-class=uvicorn.workers.UvicornWorker"]);
    assert_eq!(map_worker_class(attached.clone(), true), attached);
}

#[test]
fn flags_are_found_alone_or_with_a_value() {
    let args = list(&["--bind=x", "--reload"]);
    assert!(has_flag(&args, "--bind"));
    assert!(has_flag(&args, "--reload"));
    assert!(!has_flag(&args, "--bin"));
    assert!(!has_flag(&args, "--reload-engine"));
    assert!(!has_flag(&list(&["--graceful-timeouts", "x"]), "--graceful-timeout"));
    assert!(!has_flag(&[], "--bind"));
}

#[test]
fn timeout_is_extracted() {
    assert_eq!(extract_timeout(&list(&["--timeout", "30"])), Some(30));
    assert_eq!(extract_timeout(&list(&["a", "-t", "+7", "--timeout=9"])), Some(7));
    assert_eq!(extract_timeout(&list(&["--timeout=90"])), Some(90));
    assert_eq!(
        extract_timeout(&list(&["--timeout=18446744073709551615"])),
        Some(u64::MAX)
    );
}

#[test]
fn bad_timeout_ends_the_search() {
    assert_eq!(extract_timeout(&list(&["--timeout", "x", "--timeout=9"])), None);
    assert_eq!(extract_timeout(&list(&["--timeout=", "--timeout=9"])), None);
    assert_eq!(extract_timeout(&list(&["--timeout=-1"])), None);
    assert_eq!(extract_timeout(&list(&["--timeout=18446744073709551616"])), None);
}

#[test]
fn timeout_without_value_is_passed_over() {
    assert_eq!(extract_timeout(&list(&["--bind", "x", "--timeout"])), None);
    assert_eq!(extract_timeout(&list(&["--timeout=5", "-t"])), Some(5));
    assert_eq!(extract_timeout(&[]), None);
}

#[test]
fn graceful_timeout_follows_the_timeout() {
    let on = settings(&[]);
    let off = settings(&[("GUNICORN_AUTOSCALER_AUTO_SET_GRACEFUL_TIMEOUT", "0")]);
    let args = list(&["--timeout=120"]);
    let added = list(&["--timeout=120", "--graceful-timeout", "120"]);
    assert_eq!(maybe_add_graceful_timeout(args.clone(), &on), added);
    assert_eq!(maybe_add_graceful_timeout(added.clone(), &on), added);
    assert_eq!(maybe_add_graceful_timeout(args.clone(), &off), args);
}

#[test]
fn graceful_timeout_is_not_overridden() {
    let cfg = settings(&[]);
    let given = list(&["--timeout", "120", "--graceful-timeout=5"]);
    assert_eq!(maybe_add_graceful_timeout(given.clone(), &cfg), given);
    let none = list(&["--bind", "x"]);
    assert_eq!(maybe_add_graceful_timeout(none.clone(), &cfg), none);
}

#[test]
fn command_line_is_read() {
    let cfg = settings(&[("GUNICORN_AUTOSCALER_MAP_UVICORN_DEPRECATED", "yes")]);
    let argv = list(&[
        "gunicorn-autoscaler", "myapp:app", "--bind", "0.0.0.0:8000", "-w", "9", "--worker-class",
        "uvicorn.workers.UvicornWorker", "-t", "60",
    ]);
    let launch = read_command_line(&argv, &cfg).unwrap();
    assert_eq!(launch.app, "myapp:app");
    assert_eq!(
        launch.args,
        list(&[
            "--bind", "0.0.0.0:8000", "--worker-class", "uvicorn_worker.UvicornWorker", "-t", "60",
            "--graceful-timeout", "60",
        ])
    );
}

#[test]
fn command_line_without_app_is_refused() {
    let cfg = settings(&[]);
    assert_eq!(read_command_line(&list(&["prog"]), &cfg).err(), Some(UsageError));
    assert_eq!(read_command_line(&list(&[]), &cfg).err(), Some(UsageError));
    let launch = read_command_line(&list(&["prog", "a:b"]), &cfg).unwrap();
    assert_eq!((launch.app.as_str(), launch.args.len()), ("a:b", 0));
}

#[test]
fn gunicorn_is_started_with_own_settings_first() {
    let cfg = settings(&[("GUNICORN_AUTOSCALER_MIN_WORKERS", "12")]);
    let args = gunicorn_args("a:b", &list(&["--bind", "x"]), "/tmp/g.pid", &cfg);
    assert_eq!(
        args,
        list(&[
            "a:b", "--pid", "/tmp/g.pid", "--workers", "12", "--statsd-host", "127.0.0.1:9125",
            "--statsd-prefix", "gunicorn", "--bind", "x",
        ])
    );
}

#[test]
fn own_settings_are_not_overridden_by_arguments() {
    let cfg = settings(&[]);
    let argv = list(&["prog", "a:b", "--pid", "p", "--workers=7", "--statsd-host", "h", "-w", "8"]);
    let launch = read_command_line(&argv, &cfg).unwrap();
    let args = gunicorn_args(&launch.app, &launch.args, "/tmp/g.pid", &cfg);
    assert_eq!(args.len(), 9);
    assert_eq!(args[4], "2");
}
