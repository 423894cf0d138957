use gunicorn_autoscaler::config::Config;
use gunicorn_autoscaler::controller::{decide, Action, Controller, Observation, Phase};

const MS: u64 = 1_000_000;
const SEC: u64 = 1_000_000_000;

fn settings(vars: &[(&str, &str)]) -> Config {
    let vars: Vec<(String, String)> = vars
        .iter()
        .map(|(k, v)| (format!("GUNICORN_AUTOSCALER_{k}"), v.to_string()))
        .collect();
    Config::from_env(&vars, 20)
}

fn calm() -> Observation<f64> {
    Observation {
        workers_gauge: None,
        short_rps: 1.0,
        high: false,
        risen: false,
        idle: false,
        demand: 2,
        active: false,
        slow: false,
        within_slo: true,
    }
}

/// Takes the steps of a tick at one moment; counts additions and removals.
fn tick(c: &mut Controller<f64>, cfg: &Config, obs: &Observation<f64>, now: u64) -> (u32, u32) {
    let (mut up, mut down) = (0, 0);
    loop {
        match c.step(cfg, obs, now) {
            Action::AddWorker => up += 1,
            Action::RemoveWorker => down += 1,
            Action::Proceed => {}
            Action::Sleep => {
                assert_eq!(c.phase, Phase::Start);
                return (up, down);
            }
        }
        assert!(c.current_workers >= cfg.min_workers && c.current_workers <= cfg.max_workers);
    }
}

fn load(demand: i32, active: bool, slow: bool) -> Observation<f64> {
    Observation { demand, active, slow, ..calm() }
}

#[test]
fn decisions_are_clamped() {
    let cfg = settings(&[("MIN_WORKERS", "2"), ("MAX_WORKERS", "8")]);
    assert_eq!(decide(&load(5, false, false), 3, &cfg), 5);
    assert_eq!(decide(&load(0, false, false), 3, &cfg), 2);
    assert_eq!(decide(&load(i32::MAX, false, false), 3, &cfg), 8);
    assert_eq!(decide(&load(i32::MIN, false, false), 3, &cfg), 2);
}

#[test]
fn overload_asks_for_one_more() {
    let cfg = settings(&[("MIN_WORKERS", "2"), ("MAX_WORKERS", "8")]);
    assert_eq!(decide(&load(0, true, true), 3, &cfg), 4);
    assert_eq!(decide(&load(7, true, true), 3, &cfg), 7);
    assert_eq!(decide(&load(0, true, true), 8, &cfg), 8);
    assert_eq!(decide(&load(0, true, false), 3, &cfg), 2);
    assert_eq!(decide(&load(0, false, true), 3, &cfg), 2);
}

#[test]
fn more_load_never_asks_for_fewer_workers() {
    let cfg = settings(&[("MIN_WORKERS", "2"), ("MAX_WORKERS", "8")]);
    for demand in 0..10 {
        for current in 2..8 {
            let less = decide(&load(demand, true, false), current, &cfg);
            let slow = decide(&load(demand, true, true), current, &cfg);
            assert!(less <= slow);
            assert!(less <= decide(&load(demand + 1, true, false), current, &cfg));
            assert!(slow <= decide(&load(demand + 1, true, true), current + 1, &cfg));
        }
    }
}

#[test]
fn without_overload_only_the_demand_counts() {
    let cfg = settings(&[("MIN_WORKERS", "2"), ("MAX_WORKERS", "8")]);
    let other = Observation {
        workers_gauge: Some(3),
        short_rps: 99.0,
        high: true,
        risen: true,
        ..load(5, false, true)
    };
    for current in 2..9 {
        assert_eq!(decide(&load(5, true, false), current, &cfg), 5);
        assert_eq!(decide(&other, current, &cfg), 5);
    }
}

#[test]
fn a_surge_is_a_high_rate_that_has_risen() {
    let cfg = settings(&[]);
    for (high, risen) in [(true, false), (false, true), (false, false)] {
        let mut c = Controller::new(&cfg, 0, 0.0);
        let obs = Observation { high, risen, ..calm() };
        assert_eq!(tick(&mut c, &cfg, &obs, SEC), (0, 0));
    }
}

#[test]
fn starts_with_the_least_number_of_workers() {
    let cfg = settings(&[("MIN_WORKERS", "3")]);
    let c = Controller::new(&cfg, 5, 0.0);
    assert_eq!((c.current_workers, c.down_streak, c.phase), (3, 0, Phase::Start));
    assert_eq!((c.last_up, c.idle_since), (5 - 2_000_000_000, 5));
}

#[test]
fn a_steady_server_is_left_alone() {
    let cfg = settings(&[]);
    let mut c = Controller::new(&cfg, 0, 0.0);
    for t in 0..100 {
        assert_eq!(tick(&mut c, &cfg, &calm(), t * SEC), (0, 0));
    }
    assert_eq!(c.current_workers, 2);
}

#[test]
fn a_surge_adds_workers_at_once() {
    let cfg = settings(&[]);
    let mut c = Controller::new(&cfg, 0, 0.0);
    let obs = Observation { high: true, risen: true, short_rps: 9.0, demand: 2, ..calm() };
    assert_eq!(tick(&mut c, &cfg, &obs, SEC), (8, 0));
    assert_eq!(c.current_workers, 10);
    assert_eq!((c.last_up, c.last_burst), (SEC as i128, SEC as i128));
    assert_eq!(c.prev_short_rps, 9.0);
    assert_eq!(tick(&mut c, &cfg, &obs, 2 * SEC), (0, 0));
    assert_eq!(tick(&mut c, &cfg, &obs, 6 * SEC), (8, 0));
    assert_eq!(tick(&mut c, &cfg, &obs, 20 * SEC), (2, 0));
    assert_eq!(c.current_workers, 20);
    assert_eq!(tick(&mut c, &cfg, &obs, 40 * SEC), (0, 0));
}

#[test]
fn surges_can_be_switched_off() {
    let cfg = settings(&[("BURST_ENABLED", "0")]);
    let mut c = Controller::new(&cfg, 0, 0.5);
    let obs = Observation { high: true, risen: true, short_rps: 9.0, ..calm() };
    assert_eq!(tick(&mut c, &cfg, &obs, SEC), (0, 0));
    assert_eq!(c.prev_short_rps, 0.5);
}

#[test]
fn a_surge_without_workers_to_add_still_counts() {
    let cfg = settings(&[("BURST_ADD_WORKERS", "-3")]);
    let mut c = Controller::new(&cfg, 0, 0.0);
    let obs = Observation { high: true, risen: true, ..calm() };
    assert_eq!(tick(&mut c, &cfg, &obs, SEC), (0, 0));
    assert_eq!((c.last_burst, c.current_workers), (SEC as i128, 2));
}

#[test]
fn reported_workers_are_adopted_within_the_limits() {
    let cfg = settings(&[("MIN_WORKERS", "2"), ("MAX_WORKERS", "8")]);
    let mut c = Controller::new(&cfg, 0, 0.0);
    for (gauge, want) in [(Some(5), 5), (Some(9), 5), (Some(1), 5), (None, 5), (Some(8), 8)] {
        let obs = Observation { workers_gauge: gauge, demand: 0, within_slo: false, ..calm() };
        tick(&mut c, &cfg, &obs, 0);
        assert_eq!(c.current_workers, want);
    }
}

#[test]
fn demand_adds_half_of_the_workers_at_a_time() {
    let cfg = settings(&[("MAX_WORKERS", "100")]);
    let mut c = Controller::new(&cfg, 0, 0.0);
    let obs = Observation { demand: 50, ..calm() };
    assert_eq!(tick(&mut c, &cfg, &obs, SEC), (1, 0));
    assert_eq!(tick(&mut c, &cfg, &obs, 2 * SEC), (0, 0));
    assert_eq!(tick(&mut c, &cfg, &obs, 3 * SEC), (1, 0));
    assert_eq!(tick(&mut c, &cfg, &obs, 5 * SEC), (2, 0));
    assert_eq!(tick(&mut c, &cfg, &obs, 7 * SEC), (3, 0));
    assert_eq!(tick(&mut c, &cfg, &obs, 9 * SEC), (4, 0));
    assert_eq!(tick(&mut c, &cfg, &obs, 11 * SEC), (6, 0));
    assert_eq!(tick(&mut c, &cfg, &obs, 13 * SEC), (9, 0));
    assert_eq!(tick(&mut c, &cfg, &obs, 15 * SEC), (14, 0));
    assert_eq!(tick(&mut c, &cfg, &obs, 17 * SEC), (8, 0));
    assert_eq!(c.current_workers, 50);
}

#[test]
fn the_step_up_is_limited() {
    let cfg = settings(&[("MAX_WORKERS", "100"), ("MIN_WORKERS", "60"), ("MAX_STEP_UP", "7")]);
    let mut c = Controller::new(&cfg, 0, 0.0);
    let obs = Observation { demand: 100, ..calm() };
    assert_eq!(tick(&mut c, &cfg, &obs, SEC), (7, 0));
    let none = settings(&[("MAX_STEP_UP", "0")]);
    let mut c = Controller::new(&none, 0, 0.0);
    assert_eq!(tick(&mut c, &none, &obs, SEC), (0, 0));
    assert_eq!(c.last_up, SEC as i128);
}

#[test]
fn an_overloaded_server_grows() {
    let cfg = settings(&[]);
    let mut c = Controller::new(&cfg, 0, 0.0);
    let obs = Observation { active: true, slow: true, within_slo: false, demand: 1, ..calm() };
    assert_eq!(tick(&mut c, &cfg, &obs, SEC), (1, 0));
    assert_eq!(tick(&mut c, &cfg, &obs, 3 * SEC - 1), (0, 0));
    assert_eq!(tick(&mut c, &cfg, &obs, 3 * SEC), (1, 0));
    assert_eq!(c.current_workers, 4);
}

#[test]
fn shrinking_takes_three_ticks_in_a_row() {
    let cfg = settings(&[]);
    let mut c = Controller::new(&cfg, 0, 0.0);
    c.current_workers = 6;
    let less = Observation { demand: 3, ..calm() };
    let t = 100 * SEC;
    assert_eq!(tick(&mut c, &cfg, &less, t), (0, 0));
    assert_eq!(tick(&mut c, &cfg, &less, t), (0, 0));
    assert_eq!(tick(&mut c, &cfg, &Observation { demand: 6, ..calm() }, t), (0, 0));
    assert_eq!(c.down_streak, 0);
    assert_eq!(tick(&mut c, &cfg, &less, t), (0, 0));
    assert_eq!(tick(&mut c, &cfg, &less, t), (0, 0));
    assert_eq!(tick(&mut c, &cfg, &less, t), (0, 1));
    assert_eq!((c.current_workers, c.down_streak, c.last_down), (5, 0, t as i128));
    for _ in 0..5 {
        assert_eq!(tick(&mut c, &cfg, &less, t + 15 * SEC - 1), (0, 0));
    }
    assert_eq!(c.down_streak, 0);
}

#[test]
fn a_tick_that_may_not_shrink_does_not_break_the_streak() {
    let cfg = settings(&[]);
    let mut c = Controller::new(&cfg, 0, 0.0);
    c.current_workers = 6;
    let less = Observation { demand: 3, ..calm() };
    let slow = Observation { within_slo: false, ..less };
    let t = 100 * SEC;
    tick(&mut c, &cfg, &Observation { demand: 3, ..calm() }, t);
    tick(&mut c, &cfg, &slow, t);
    assert_eq!(c.down_streak, 1);
    tick(&mut c, &cfg, &Observation { demand: 3, ..calm() }, t);
    assert_eq!(tick(&mut c, &cfg, &Observation { demand: 3, ..calm() }, t), (0, 1));
}

#[test]
fn an_idle_server_contracts_to_the_least_number() {
    let cfg = settings(&[("NO_DOWNSCALE_MS_AFTER_UP", "0")]);
    let mut c = Controller::new(&cfg, 0, 0.0);
    c.current_workers = 4;
    let idle = Observation { idle: true, demand: 20, ..calm() };
    let idle = Observation { demand: 4, ..idle };
    assert_eq!(tick(&mut c, &cfg, &idle, 60 * SEC - 1), (0, 0));
    let idle = Observation { demand: 0, within_slo: false, ..idle };
    assert_eq!(tick(&mut c, &cfg, &idle, 60 * SEC), (0, 1));
    assert_eq!(tick(&mut c, &cfg, &idle, 75 * SEC - 1), (0, 0));
    assert_eq!(tick(&mut c, &cfg, &idle, 75 * SEC), (0, 1));
    assert_eq!(tick(&mut c, &cfg, &idle, 900 * SEC), (0, 0));
    assert_eq!(c.current_workers, 2);
}

#[test]
fn a_busy_tick_starts_the_idle_time_anew() {
    let cfg = settings(&[]);
    let mut c = Controller::new(&cfg, 0, 0.0);
    c.current_workers = 4;
    tick(&mut c, &cfg, &Observation { demand: 4, ..calm() }, 50 * SEC);
    assert_eq!(c.idle_since, 50 * SEC as i128);
    let idle = Observation { idle: true, demand: 4, ..calm() };
    assert_eq!(tick(&mut c, &cfg, &idle, 110 * SEC - 1), (0, 0));
    assert_eq!(c.idle_since, 50 * SEC as i128);
    assert_eq!(tick(&mut c, &cfg, &idle, 110 * SEC).1, 1);
}

#[test]
fn an_addition_delays_removals() {
    let cfg = settings(&[("DOWN_COOLDOWN_MS", "0"), ("IDLE_SECONDS", "0")]);
    let mut c = Controller::new(&cfg, 0, 0.0);
    let surge = Observation { high: true, risen: true, ..calm() };
    tick(&mut c, &cfg, &surge, 100 * SEC);
    let idle = Observation { idle: true, demand: 0, ..calm() };
    for t in [100 * SEC, 130 * SEC, 160 * SEC - 1] {
        assert_eq!(tick(&mut c, &cfg, &idle, t), (0, 0));
    }
    assert_eq!(tick(&mut c, &cfg, &idle, 160 * SEC), (0, 1));
}

#[test]
fn a_clock_that_stands_still_passes_no_time() {
    let cfg = settings(&[("UP_COOLDOWN_MS", "1")]);
    let mut c = Controller::new(&cfg, 0, 0.0);
    let obs = Observation { demand: 20, ..calm() };
    assert_eq!(tick(&mut c, &cfg, &obs, MS), (1, 0));
    assert_eq!(tick(&mut c, &cfg, &obs, MS), (0, 0));
    assert_eq!(tick(&mut c, &cfg, &obs, 0), (0, 0));
    assert_eq!(tick(&mut c, &cfg, &obs, 2 * MS - 1), (0, 0));
    assert_eq!(tick(&mut c, &cfg, &obs, 2 * MS), (1, 0));
}

#[test]
fn steps_follow_the_phases() {
    let cfg = settings(&[]);
    let mut c = Controller::new(&cfg, 0, 0.0);
    let obs = Observation { high: true, risen: true, demand: 20, ..calm() };
    assert_eq!(c.step(&cfg, &obs, SEC), Action::Proceed);
    assert_eq!(c.phase, Phase::Bursting { left: 8 });
    for _ in 0..8 {
        assert_eq!(c.step(&cfg, &obs, SEC), Action::AddWorker);
    }
    assert_eq!(c.step(&cfg, &obs, SEC), Action::Proceed);
    assert_eq!(c.phase, Phase::Idle);
    assert_eq!(c.step(&cfg, &obs, SEC), Action::Proceed);
    assert_eq!(c.step(&cfg, &obs, 9 * SEC), Action::Proceed);
    assert_eq!(c.phase, Phase::Scaling { left: 5, desired: 20 });
    for _ in 0..5 {
        assert_eq!(c.step(&cfg, &obs, 9 * SEC), Action::AddWorker);
    }
    assert_eq!(c.step(&cfg, &obs, 9 * SEC), Action::Proceed);
    assert_eq!(c.phase, Phase::Shrink { desired: 20 });
    assert_eq!(c.step(&cfg, &obs, 9 * SEC), Action::Proceed);
    assert_eq!(c.step(&cfg, &obs, 9 * SEC), Action::Sleep);
    assert_eq!(c.current_workers, 15);
}

#[test]
fn when_traffic_drops_the_service_contracts() {
    let cfg = settings(&[("NO_DOWNSCALE_MS_AFTER_UP", "30000")]);
    let mut c = Controller::new(&cfg, 0, 0.0);
    tick(&mut c, &cfg, &Observation { high: true, risen: true, ..calm() }, 10 * SEC);
    assert_eq!(c.current_workers, 10);
    let idle = Observation { idle: true, demand: 0, ..calm() };
    for i in 0..12 {
        let before = c.current_workers;
        let (up, _) = tick(&mut c, &cfg, &idle, (70 + 15 * i) * SEC);
        assert_eq!(up, 0);
        assert!(c.current_workers < before || before == 2);
        assert!(c.current_workers >= 2 && c.current_workers as u64 <= 2.max(9 - i.min(9)));
    }
    assert_eq!(c.current_workers, 2);
}

#[test]
fn the_third_shrinking_tick_removes_one_worker() {
    let cfg = settings(&[]);
    let mut c = Controller::new(&cfg, 0, 0.0);
    c.current_workers = 9;
    let less = Observation { demand: 4, workers_gauge: None, ..calm() };
    let mut removed = Vec::new();
    for i in 0..6 {
        removed.push(tick(&mut c, &cfg, &less, (100 + 20 * i) * SEC).1);
    }
    assert_eq!(removed, vec![0, 0, 1, 0, 0, 1]);
    assert_eq!(c.current_workers, 7);
}
