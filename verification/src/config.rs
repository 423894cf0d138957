//! The settings, as environment variables give them.

use vstd::prelude::*;

use crate::number::{number_within, parse_i32, parse_u64};
use crate::text::{chars_of, spells};

verus! {

/// The views of the environment's variables: names and values.
pub open spec fn env_view(vars: Seq<(String, String)>) -> Seq<(Seq<char>, Seq<char>)> {
    vars.map_values(|v: (String, String)| (v.0@, v.1@))
}

/// The value of the first variable with a name, if there is one.
pub open spec fn value_in(env: Seq<(Seq<char>, Seq<char>)>, key: Seq<char>) -> Option<Seq<char>>
    decreases env.len(),
{
    if env.len() == 0 {
        None
    } else if env[0].0 == key {
        Some(env[0].1)
    } else {
        value_in(env.skip(1), key)
    }
}

/// A text setting: what its variable holds, or the default.
pub open spec fn text_setting(
    env: Seq<(Seq<char>, Seq<char>)>,
    key: Seq<char>,
    default: Seq<char>,
) -> Seq<char> {
    match value_in(env, key) {
        Some(value) => value,
        None => default,
    }
}

/// A setting between two bounds: the number that its variable holds, or the default.
pub open spec fn number_setting(
    env: Seq<(Seq<char>, Seq<char>)>,
    key: Seq<char>,
    default: int,
    low: int,
    high: int,
) -> int {
    match value_in(env, key) {
        Some(value) => match number_within(value, low, high) {
            Some(n) => n,
            None => default,
        },
        None => default,
    }
}

/// An `i32` setting.
pub open spec fn i32_setting(
    env: Seq<(Seq<char>, Seq<char>)>,
    key: Seq<char>,
    default: i32,
) -> int {
    number_setting(env, key, default as int, i32::MIN as int, i32::MAX as int)
}

/// A `u64` setting.
pub open spec fn u64_setting(
    env: Seq<(Seq<char>, Seq<char>)>,
    key: Seq<char>,
    default: u64,
) -> int {
    number_setting(env, key, default as int, 0, u64::MAX as int)
}

/// Whether a value switches something on.
pub open spec fn affirms(value: Seq<char>) -> bool {
    ||| value == "1"@
    ||| value == "true"@
    ||| value == "TRUE"@
    ||| value == "yes"@
    ||| value == "YES"@
}

/// A switch: on, if its variable holds an affirmation; off, if it holds anything else.
pub open spec fn bool_setting(
    env: Seq<(Seq<char>, Seq<char>)>,
    key: Seq<char>,
    default: bool,
) -> bool {
    match value_in(env, key) {
        Some(value) => affirms(value),
        None => default,
    }
}

/// Looks up a variable.
pub fn lookup(vars: &Vec<(String, String)>, key: &str) -> (res: Option<String>)
    ensures
        match res {
            Some(value) => value_in(env_view(vars@), key@) == Some(value@),
            None => value_in(env_view(vars@), key@) is None,
        },
{
    let ghost env = env_view(vars@);
    assert(env.skip(0) =~= env);
    let mut i: usize = 0;
    while i < vars.len()
        invariant
            i <= vars@.len(),
            env == env_view(vars@),
            value_in(env, key@) == value_in(env.skip(i as int), key@),
        decreases vars@.len() - i,
    {
        let ghost rest = env.skip(i as int);
        assert(rest[0] == env[i as int]);
        assert(rest.skip(1) =~= env.skip(i + 1));
        if spells(chars_of(vars[i].0.as_str()).as_slice(), key) {
            return Some(vars[i].1.clone());
        }
        i += 1;
    }
    None
}

/// Reads a text setting.
pub fn env_var(vars: &Vec<(String, String)>, key: &str, default: &str) -> (res: String)
    ensures
        res@ == text_setting(env_view(vars@), key@, default@),
{
    match lookup(vars, key) {
        Some(value) => value,
        None => default.to_owned(),
    }
}

/// Reads an `i32` setting.
pub fn env_var_i32(vars: &Vec<(String, String)>, key: &str, default: i32) -> (res: i32)
    ensures
        res == i32_setting(env_view(vars@), key@, default),
{
    match lookup(vars, key) {
        Some(value) => match parse_i32(value.as_str()) {
            Some(n) => n,
            None => default,
        },
        None => default,
    }
}

/// Reads a `u64` setting.
pub fn env_var_u64(vars: &Vec<(String, String)>, key: &str, default: u64) -> (res: u64)
    ensures
        res == u64_setting(env_view(vars@), key@, default),
{
    match lookup(vars, key) {
        Some(value) => match parse_u64(value.as_str()) {
            Some(n) => n,
            None => default,
        },
        None => default,
    }
}

/// Reads a switch.
pub fn env_var_bool(vars: &Vec<(String, String)>, key: &str, default: bool) -> (res: bool)
    ensures
        res == bool_setting(env_view(vars@), key@, default),
{
    match lookup(vars, key) {
        Some(value) => {
            let owned = chars_of(value.as_str());
            let v = owned.as_slice();
            spells(v, "1") || spells(v, "true") || spells(v, "TRUE") || spells(v, "yes") || spells(
                v,
                "YES",
            )
        },
        None => default,
    }
}

/// The settings that are whole numbers, switches or texts.
#[derive(Debug)]
pub struct Config {
    /// Where StatsD metrics are received.
    pub statsd_addr: String,
    /// What the names of StatsD metrics begin with.
    pub statsd_prefix: String,
    /// The least number of workers.
    pub min_workers: i32,
    /// The greatest number of workers.
    pub max_workers: i32,
    /// How many seconds of metrics are kept.
    pub window_seconds: u64,
    /// How long to rest between two decisions, in milliseconds.
    pub tick_ms: u64,
    /// How many idle seconds come before a worker is removed.
    pub idle_seconds: u64,
    /// How long to wait after workers were added before adding more.
    pub up_cooldown_ms: u64,
    /// How long to wait after a worker was removed before removing another.
    pub down_cooldown_ms: u64,
    /// How many workers may be added at once.
    pub max_step_up: i32,
    /// How long to wait after workers were added before removing any.
    pub no_downscale_for_ms_after_up: u64,
    /// Whether a sudden rise of the request rate adds workers at once.
    pub burst_enabled: bool,
    /// Over how many seconds the request rate is taken for that.
    pub burst_window_seconds: u64,
    /// How many workers a sudden rise adds.
    pub burst_add_workers: i32,
    /// How long to wait after a sudden rise before heeding another.
    pub burst_cooldown_ms: u64,
    /// Whether a deprecated worker class is replaced.
    pub map_uvicorn_deprecated: bool,
    /// Whether the graceful timeout follows the timeout.
    pub auto_set_graceful_timeout: bool,
}

/// Why settings cannot be used.
#[derive(Debug, PartialEq, Eq, Structural, Clone, Copy)]
pub enum ConfigError {
    /// The least number of workers is below 1.
    MinWorkers,
    /// The greatest number of workers is below the least.
    MaxWorkers,
}

impl Config {
    /// Whether the settings can be used.
    pub open spec fn valid(self) -> bool {
        1 <= self.min_workers <= self.max_workers
    }

    /// Reads the settings. `default_max` is the greatest number of workers, where no variable
    /// gives it.
    pub fn from_env(vars: &Vec<(String, String)>, default_max: i32) -> (res: Config)
        ensures
            ({
                let env = env_view(vars@);
                &&& res.statsd_addr@ == text_setting(
                    env,
                    "GUNICORN_AUTOSCALER_STATSD_ADDR"@,
                    "127.0.0.1:9125"@,
                )
                &&& res.statsd_prefix@ == text_setting(
                    env,
                    "GUNICORN_AUTOSCALER_STATSD_PREFIX"@,
                    "gunicorn"@,
                )
                &&& res.min_workers == i32_setting(env, "GUNICORN_AUTOSCALER_MIN_WORKERS"@, 2)
                &&& res.max_workers == i32_setting(
                    env,
                    "GUNICORN_AUTOSCALER_MAX_WORKERS"@,
                    default_max,
                )
                &&& res.window_seconds == u64_setting(
                    env,
                    "GUNICORN_AUTOSCALER_WINDOW_SECONDS"@,
                    20,
                )
                &&& res.tick_ms == u64_setting(env, "GUNICORN_AUTOSCALER_TICK_MS"@, 1000)
                &&& res.idle_seconds == u64_setting(env, "GUNICORN_AUTOSCALER_IDLE_SECONDS"@, 60)
                &&& res.up_cooldown_ms == u64_setting(
                    env,
                    "GUNICORN_AUTOSCALER_UP_COOLDOWN_MS"@,
                    2000,
                )
                &&& res.down_cooldown_ms == u64_setting(
                    env,
                    "GUNICORN_AUTOSCALER_DOWN_COOLDOWN_MS"@,
                    15000,
                )
                &&& res.max_step_up == i32_setting(env, "GUNICORN_AUTOSCALER_MAX_STEP_UP"@, 16)
                &&& res.no_downscale_for_ms_after_up == u64_setting(
                    env,
                    "GUNICORN_AUTOSCALER_NO_DOWNSCALE_MS_AFTER_UP"@,
                    60000,
                )
                &&& res.burst_enabled == bool_setting(
                    env,
                    "GUNICORN_AUTOSCALER_BURST_ENABLED"@,
                    true,
                )
                &&& res.burst_window_seconds == u64_setting(
                    env,
                    "GUNICORN_AUTOSCALER_BURST_WINDOW_SECONDS"@,
                    3,
                )
                &&& res.burst_add_workers == i32_setting(
                    env,
                    "GUNICORN_AUTOSCALER_BURST_ADD_WORKERS"@,
                    8,
                )
                &&& res.burst_cooldown_ms == u64_setting(
                    env,
                    "GUNICORN_AUTOSCALER_BURST_COOLDOWN_MS"@,
                    5000,
                )
                &&& res.map_uvicorn_deprecated == bool_setting(
                    env,
                    "GUNICORN_AUTOSCALER_MAP_UVICORN_DEPRECATED"@,
                    false,
                )
                &&& res.auto_set_graceful_timeout == bool_setting(
                    env,
                    "GUNICORN_AUTOSCALER_AUTO_SET_GRACEFUL_TIMEOUT"@,
                    true,
                )
            }),
    {
        Config {
            statsd_addr: env_var(vars, "GUNICORN_AUTOSCALER_STATSD_ADDR", "127.0.0.1:9125"),
            statsd_prefix: env_var(vars, "GUNICORN_AUTOSCALER_STATSD_PREFIX", "gunicorn"),
            min_workers: env_var_i32(vars, "GUNICORN_AUTOSCALER_MIN_WORKERS", 2),
            max_workers: env_var_i32(vars, "GUNICORN_AUTOSCALER_MAX_WORKERS", default_max),
            window_seconds: env_var_u64(vars, "GUNICORN_AUTOSCALER_WINDOW_SECONDS", 20),
            tick_ms: env_var_u64(vars, "GUNICORN_AUTOSCALER_TICK_MS", 1000),
            idle_seconds: env_var_u64(vars, "GUNICORN_AUTOSCALER_IDLE_SECONDS", 60),
            up_cooldown_ms: env_var_u64(vars, "GUNICORN_AUTOSCALER_UP_COOLDOWN_MS", 2000),
            down_cooldown_ms: env_var_u64(vars, "GUNICORN_AUTOSCALER_DOWN_COOLDOWN_MS", 15000),
            max_step_up: env_var_i32(vars, "GUNICORN_AUTOSCALER_MAX_STEP_UP", 16),
            no_downscale_for_ms_after_up: env_var_u64(
                vars,
                "GUNICORN_AUTOSCALER_NO_DOWNSCALE_MS_AFTER_UP",
                60000,
            ),
            burst_enabled: env_var_bool(vars, "GUNICORN_AUTOSCALER_BURST_ENABLED", true),
            burst_window_seconds: env_var_u64(vars, "GUNICORN_AUTOSCALER_BURST_WINDOW_SECONDS", 3),
            burst_add_workers: env_var_i32(vars, "GUNICORN_AUTOSCALER_BURST_ADD_WORKERS", 8),
            burst_cooldown_ms: env_var_u64(vars, "GUNICORN_AUTOSCALER_BURST_COOLDOWN_MS", 5000),
            map_uvicorn_deprecated: env_var_bool(
                vars,
                "GUNICORN_AUTOSCALER_MAP_UVICORN_DEPRECATED",
                false,
            ),
            auto_set_graceful_timeout: env_var_bool(
                vars,
                "GUNICORN_AUTOSCALER_AUTO_SET_GRACEFUL_TIMEOUT",
                true,
            ),
        }
    }

    /// Refuses settings that cannot be used.
    pub fn validate(&self) -> (res: Result<(), ConfigError>)
        ensures
            res is Ok <==> self.valid(),
            res == Err::<(), ConfigError>(ConfigError::MinWorkers) <==> self.min_workers < 1,
            res == Err::<(), ConfigError>(ConfigError::MaxWorkers) <==> self.min_workers >= 1
                && self.max_workers < self.min_workers,
    {
        if self.min_workers < 1 {
            return Err(ConfigError::MinWorkers);
        }
        if self.max_workers < self.min_workers {
            return Err(ConfigError::MaxWorkers);
        }
        Ok(())
    }
}

/// The settings that are fractional numbers, as they were written, where they are set.
#[derive(Debug)]
pub struct Thresholds {
    /// How many requests a worker should serve at the same time.
    pub target_conc_per_worker: Option<String>,
    /// How long requests should take at most, at the 95th percentile, in milliseconds.
    pub slo_p95_ms: Option<String>,
    /// By how much the request rate must rise for a surge.
    pub burst_rps_jump: Option<String>,
    /// How high the request rate must be for a surge.
    pub burst_min_rps: Option<String>,
}

/// The view of a text that may be missing.
pub open spec fn held(text: Option<String>) -> Option<Seq<char>> {
    match text {
        Some(t) => Some(t@),
        None => None,
    }
}

impl Thresholds {
    /// Looks up the settings.
    pub fn from_env(vars: &Vec<(String, String)>) -> (res: Thresholds)
        ensures
            ({
                let env = env_view(vars@);
                &&& held(res.target_conc_per_worker) == value_in(
                    env,
                    "GUNICORN_AUTOSCALER_TARGET_CONC_PER_WORKER"@,
                )
                &&& held(res.slo_p95_ms) == value_in(env, "GUNICORN_AUTOSCALER_SLO_P95_MS"@)
                &&& held(res.burst_rps_jump) == value_in(env, "GUNICORN_AUTOSCALER_BURST_RPS_JUMP"@)
                &&& held(res.burst_min_rps) == value_in(env, "GUNICORN_AUTOSCALER_BURST_MIN_RPS"@)
            }),
    {
        Thresholds {
            target_conc_per_worker: lookup(vars, "GUNICORN_AUTOSCALER_TARGET_CONC_PER_WORKER"),
            slo_p95_ms: lookup(vars, "GUNICORN_AUTOSCALER_SLO_P95_MS"),
            burst_rps_jump: lookup(vars, "GUNICORN_AUTOSCALER_BURST_RPS_JUMP"),
            burst_min_rps: lookup(vars, "GUNICORN_AUTOSCALER_BURST_MIN_RPS"),
        }
    }
}

/// What a variable holds does not depend on variables with other names.
pub proof fn law_other_variables_do_not_matter(
    before: Seq<(Seq<char>, Seq<char>)>,
    other: (Seq<char>, Seq<char>),
    after: Seq<(Seq<char>, Seq<char>)>,
    key: Seq<char>,
)
    requires
        other.0 != key,
    ensures
        value_in(before + seq![other] + after, key) == value_in(before + after, key),
    decreases before.len(),
{
    let (more, less) = (before + seq![other] + after, before + after);
    if before.len() == 0 {
        assert(more.skip(1) =~= after);
        assert(less =~= after);
    } else {
        assert(more.skip(1) =~= before.skip(1) + seq![other] + after);
        assert(less.skip(1) =~= before.skip(1) + after);
        law_other_variables_do_not_matter(before.skip(1), other, after, key);
    }
}

/// The views of the variables are their names and values, one variable after another.
pub proof fn law_every_variable_is_seen(vars: Seq<(String, String)>)
    ensures
        env_view(vars).len() == vars.len(),
        forall|i: int|
            0 <= i < vars.len() ==> #[trigger] env_view(vars)[i] == (vars[i].0@, vars[i].1@),
{
}

/// A variable holds what the first entry of its name says, and nothing where there is none.
pub proof fn law_the_first_entry_counts(
    before: Seq<(Seq<char>, Seq<char>)>,
    key: Seq<char>,
    value: Seq<char>,
    after: Seq<(Seq<char>, Seq<char>)>,
)
    requires
        forall|i: int| 0 <= i < before.len() ==> (#[trigger] before[i]).0 != key,
    ensures
        value_in(before + seq![(key, value)] + after, key) == Some(value),
        value_in(before, key) is None,
    decreases before.len(),
{
    let env = before + seq![(key, value)] + after;
    if before.len() == 0 {
        assert(env[0] == (key, value));
    } else {
        let rest = before.skip(1);
        assert(env[0] == before[0]);
        assert(env.skip(1) =~= rest + seq![(key, value)] + after);
        assert forall|i: int| 0 <= i < rest.len() implies (#[trigger] rest[i]).0 != key by {
            assert(rest[i] == before[i + 1]);
        }
        law_the_first_entry_counts(rest, key, value, after);
    }
}

/// A setting is what its variable holds: a text as it stands, a number where the text denotes one
/// of its type, a switch where the text is one of five affirmations. Only a number that cannot be
/// read, and any setting whose variable is missing, falls back on the default.
pub proof fn law_settings_follow_their_variables(
    env: Seq<(Seq<char>, Seq<char>)>,
    key: Seq<char>,
    text: Seq<char>,
    small: i32,
    large: u64,
    switch: bool,
)
    ensures
        value_in(env, key) is None ==> text_setting(env, key, text) == text && i32_setting(
            env,
            key,
            small,
        ) == small && u64_setting(env, key, large) == large && bool_setting(env, key, switch)
            == switch,
        value_in(env, key) matches Some(value) ==> {
            &&& text_setting(env, key, text) == value
            &&& number_within(value, -0x8000_0000, 0x7fff_ffff) matches Some(n) ==> i32_setting(
                env,
                key,
                small,
            ) == n
            &&& number_within(value, -0x8000_0000, 0x7fff_ffff) is None ==> i32_setting(
                env,
                key,
                small,
            ) == small
            &&& number_within(value, 0, 0xffff_ffff_ffff_ffff) matches Some(n) ==> u64_setting(
                env,
                key,
                large,
            ) == n
            &&& number_within(value, 0, 0xffff_ffff_ffff_ffff) is None ==> u64_setting(
                env,
                key,
                large,
            ) == large
            &&& bool_setting(env, key, switch) <==> seq![
                "1"@,
                "true"@,
                "TRUE"@,
                "yes"@,
                "YES"@,
            ].contains(value)
        },
{
    let five = seq!["1"@, "true"@, "TRUE"@, "yes"@, "YES"@];
    assert(five[0] == "1"@ && five[1] == "true"@ && five[2] == "TRUE"@ && five[3] == "yes"@
        && five[4] == "YES"@);
}

/// Settings can be used exactly where there is to be at least one worker, and no more at least
/// than at most.
pub proof fn law_usable_settings(cfg: Config)
    ensures
        cfg.valid() <==> cfg.min_workers > 0 && cfg.max_workers >= cfg.min_workers,
{
}

/// A text that may be missing is seen as it is.
pub proof fn law_missing_texts_are_seen(text: Option<String>)
    ensures
        text is None <==> held(text) is None,
        text matches Some(t) ==> held(text) == Some(t@),
{
}

} // verus!
