//! What the operations do, stated of their arguments and their results.

use vstd::prelude::*;
use vstd::utf8::{decode_utf8, valid_utf8};

use crate::args::{
    extract_timeout, gunicorn_args, has_flag, law_class_is_replaced, law_first_timeout_counts,
    law_graceful_timeout_equals_the_timeout, law_managed_option_goes_with_its_value,
    law_managed_setting_goes_alone, law_option_is_given, law_other_argument_stays,
    law_other_arguments_keep_their_class, law_started_with_own_settings_first, map_worker_class,
    maybe_add_graceful_timeout, read_command_line, strip_managed_flags, Launch, UsageError,
};
use crate::config::{
    env_var, env_var_bool, env_var_i32, env_var_u64, env_view, held, i32_setting,
    law_missing_texts_are_seen, law_settings_follow_their_variables, lookup, u64_setting, value_in,
    Config, ConfigError, Thresholds,
};
use crate::controller::{
    decide, law_decision_is_the_demand, law_start_of_a_tick, law_surge_and_overload, Action,
    Controller, Observation, Phase,
};
use crate::durations::MOST_RANKED;
use crate::number::{
    decimal, format_i32, format_u64, law_bounds_are_included, law_decimal_reads_back,
    law_digits_denote_a_number, law_nothing_else_denotes_a_number, law_signed_decimal_reads_back,
    number, number_within, parse_i32, parse_u32, parse_u64,
};
use crate::statsd::{
    law_all_outcomes_are_seen, law_every_line_is_read, law_last_rate_counts,
    law_lines_that_are_refused, law_metrics_are_seen_as_they_are, law_name_and_type_decide,
    law_other_metrics_in_numbers, law_requests_in_numbers, outcome, outcomes, parse_packet,
    parse_statsd_line, parse_text, parsed, parsed_lines, Metric, MetricView, ParseError, Parsed,
    Reading,
};
use crate::system::{
    effective_cores, law_other_content_limits_nothing, law_two_words_are_quota_and_period,
    law_where_the_processors_come_from, parse_pid, quota_chosen, read_cpu_max, Amount, CpuQuota,
};
use crate::text::{
    law_lines_end_with_line_feeds, law_trimming_cuts_both_sides, law_views_show_every_text, lines,
    lossy_text, trimmed, views, white, words,
};
use crate::window::{Sample, State, WindowError};
use crate::window_model::{
    adds_up, all_durations, is_p95, law_duration_is_recorded, law_equal_durations_are_reported,
    law_requests_are_counted, law_shows_the_last_seconds, law_snapshot_sums_up, Snapshot, StateView,
};

verus! {

/// Stripping drops a managed option together with the argument after it, whatever that is, and
/// strips the rest as it would alone.
pub proof fn law_strip_drops_an_option_with_its_value(
    args: Vec<String>,
    rest: Vec<String>,
    name: Seq<char>,
    value: Seq<char>,
    res: Vec<String>,
    res_rest: Vec<String>,
)
    requires
        call_ensures(strip_managed_flags, (args,), res),
        call_ensures(strip_managed_flags, (rest,), res_rest),
        views(args@) == seq![name, value] + views(rest@),
        seq![
            "--workers"@,
            "-w"@,
            "--threads"@,
            "--worker-connections"@,
            "--statsd-host"@,
            "--statsd-prefix"@,
            "--pid"@,
        ].contains(name),
    ensures
        views(res@) == views(res_rest@),
{
    law_managed_option_goes_with_its_value(name, value, views(rest@));
}

/// Stripping drops a managed option with its value attached, and strips the rest as it would alone.
pub proof fn law_strip_drops_a_setting(
    args: Vec<String>,
    rest: Vec<String>,
    name: Seq<char>,
    value: Seq<char>,
    res: Vec<String>,
    res_rest: Vec<String>,
)
    requires
        call_ensures(strip_managed_flags, (args,), res),
        call_ensures(strip_managed_flags, (rest,), res_rest),
        views(args@) == seq![name + seq!['='] + value] + views(rest@),
        seq![
            "--workers"@,
            "--threads"@,
            "--worker-connections"@,
            "--statsd-host"@,
            "--statsd-prefix"@,
            "--pid"@,
        ].contains(name),
    ensures
        views(res@) == views(res_rest@),
{
    law_managed_setting_goes_alone(name, value, views(rest@));
}

/// Stripping keeps every other argument, in its place in front of what is left of the rest.
pub proof fn law_strip_keeps_other_arguments(
    args: Vec<String>,
    rest: Vec<String>,
    arg: Seq<char>,
    res: Vec<String>,
    res_rest: Vec<String>,
)
    requires
        call_ensures(strip_managed_flags, (args,), res),
        call_ensures(strip_managed_flags, (rest,), res_rest),
        views(args@) == seq![arg] + views(rest@),
        !seq![
            "--workers"@,
            "-w"@,
            "--threads"@,
            "--worker-connections"@,
            "--statsd-host"@,
            "--statsd-prefix"@,
            "--pid"@,
        ].contains(arg),
        !("--workers"@ + seq!['=']).is_prefix_of(arg),
        !("--threads"@ + seq!['=']).is_prefix_of(arg),
        !("--worker-connections"@ + seq!['=']).is_prefix_of(arg),
        !("--statsd-host"@ + seq!['=']).is_prefix_of(arg),
        !("--statsd-prefix"@ + seq!['=']).is_prefix_of(arg),
        !("--pid"@ + seq!['=']).is_prefix_of(arg),
    ensures
        views(res@) == seq![arg] + views(res_rest@),
{
    law_other_argument_stays(arg, views(rest@));
}

/// A worker class is replaced only where that is enabled; then the deprecated class of Uvicorn
/// becomes the current one, any other stays, and the rest is treated as it would be alone.
pub proof fn law_map_replaces_the_class(
    args: Vec<String>,
    rest: Vec<String>,
    flag: Seq<char>,
    class: Seq<char>,
    enabled: bool,
    res: Vec<String>,
    res_rest: Vec<String>,
)
    requires
        call_ensures(map_worker_class, (args, enabled), res),
        call_ensures(map_worker_class, (rest, enabled), res_rest),
        views(args@) == seq![flag, class] + views(rest@),
    ensures
        !enabled ==> views(res@) == views(args@),
        enabled && (flag == "--worker-class"@ || flag == "-k"@) && class
            == "uvicorn.workers.UvicornWorker"@ ==> views(res@) == seq![
            flag,
            "uvicorn_worker.UvicornWorker"@,
        ] + views(res_rest@),
        enabled && (flag == "--worker-class"@ || flag == "-k"@) && class
            != "uvicorn.workers.UvicornWorker"@ ==> views(res@) == seq![flag, class] + views(
            res_rest@,
        ),
{
    if flag == "--worker-class"@ || flag == "-k"@ {
        law_class_is_replaced(flag, class, views(rest@));
    }
}

/// An argument that does not ask for a worker class is kept, and the rest is treated as it would
/// be alone.
pub proof fn law_map_keeps_other_arguments(
    args: Vec<String>,
    rest: Vec<String>,
    arg: Seq<char>,
    enabled: bool,
    res: Vec<String>,
    res_rest: Vec<String>,
)
    requires
        call_ensures(map_worker_class, (args, enabled), res),
        call_ensures(map_worker_class, (rest, enabled), res_rest),
        views(args@) == seq![arg] + views(rest@),
        rest@.len() == 0 || (arg != "--worker-class"@ && arg != "-k"@),
    ensures
        views(res@) == seq![arg] + views(res_rest@),
{
    law_views_show_every_text(rest@);
    if arg != "--worker-class"@ && arg != "-k"@ {
        law_other_arguments_keep_their_class(arg, views(rest@));
    } else {
        assert(views(args@) =~= seq![arg]);
        assert(views(rest@) =~= Seq::<Seq<char>>::empty());
        law_class_is_replaced(arg, arg, views(rest@));
        reveal_strlit("--worker-class");
        reveal_strlit("-k");
        assert("--worker-class"@.len() == 14 && "-k"@.len() == 2);
        law_other_arguments_keep_their_class(Seq::empty(), views(rest@));
        assert(seq![arg] + Seq::<Seq<char>>::empty() =~= seq![arg]);
    }
}

/// An option is found exactly where an argument is its name, or its name with an equals sign and
/// a value attached.
pub proof fn law_flag_is_found(args: &[String], flag: &str, res: bool)
    requires
        call_ensures(has_flag, (args, flag), res),
    ensures
        res <==> exists|i: int|
            0 <= i < args@.len() && (#[trigger] args@[i]@ == flag@ || (args@[i]@.len() > flag@.len()
                && args@[i]@.subrange(0, flag@.len() as int) == flag@
                && args@[i]@[flag@.len() as int] == '=')),
{
    let all = views(args@);
    law_views_show_every_text(args@);
    if res {
        if all.len() > 0 {
            law_option_is_given(all, flag@, 0, Seq::empty());
        }
        let j = choose|j: int|
            0 <= j < all.len() && (#[trigger] all[j] == flag@ || (all[j].len() > flag@.len()
                && all[j].subrange(0, flag@.len() as int) == flag@ && all[j][flag@.len() as int]
                == '='));
        assert(all[j] == args@[j]@);
    }
    if exists|i: int|
        0 <= i < args@.len() && (#[trigger] args@[i]@ == flag@ || (args@[i]@.len() > flag@.len()
            && args@[i]@.subrange(0, flag@.len() as int) == flag@ && args@[i]@[flag@.len() as int]
            == '=')) {
        let i = choose|i: int|
            0 <= i < args@.len() && (#[trigger] args@[i]@ == flag@ || (args@[i]@.len() > flag@.len()
                && args@[i]@.subrange(0, flag@.len() as int) == flag@
                && args@[i]@[flag@.len() as int] == '='));
        let n = flag@.len() as int;
        let value = args@[i]@.subrange(n + 1, args@[i]@.len() as int);
        assert(all[i] == args@[i]@);
        if args@[i]@ != flag@ {
            assert forall|k: int| 0 <= k < n implies args@[i]@[k] == flag@[k] by {
                assert(args@[i]@.subrange(0, n)[k] == flag@[k]);
            }
            assert(args@[i]@ =~= flag@ + seq!['='] + value);
        }
        law_option_is_given(all, flag@, i, value);
    }
}

/// The first timeout decides: the value that follows it or is attached to it, where that is a
/// number that is not negative and fits; other arguments do not matter.
pub proof fn law_timeout_is_extracted(
    args: &[String],
    rest: &[String],
    flag: Seq<char>,
    value: Seq<char>,
    res: Option<u64>,
    res_rest: Option<u64>,
)
    requires
        call_ensures(extract_timeout, (args,), res),
        call_ensures(extract_timeout, (rest,), res_rest),
    ensures
        (flag == "--timeout"@ || flag == "-t"@) && views(args@) == seq![flag, value] + views(rest@)
            ==> (match res {
            Some(t) => number_within(value, 0, 0xffff_ffff_ffff_ffff) == Some(t as int),
            None => number_within(value, 0, 0xffff_ffff_ffff_ffff) is None,
        }),
        views(args@) == seq!["--timeout"@ + seq!['='] + value] + views(rest@) ==> (match res {
            Some(t) => number_within(value, 0, 0xffff_ffff_ffff_ffff) == Some(t as int),
            None => number_within(value, 0, 0xffff_ffff_ffff_ffff) is None,
        }),
        value != "--timeout"@ && value != "-t"@ && !("--timeout"@ + seq!['=']).is_prefix_of(value)
            && views(args@) == seq![value] + views(rest@) ==> res == res_rest,
        views(args@).len() == 0 ==> res is None,
{
    reveal_strlit("--timeout");
    reveal_strlit("-t");
    let none = Seq::<char>::empty();
    let given = if flag == "--timeout"@ || flag == "-t"@ {
        flag
    } else {
        "-t"@
    };
    assert(!("--timeout"@ + seq!['=']).is_prefix_of(none));
    law_first_timeout_counts(given, value, none, views(rest@));
    if value != "--timeout"@ && value != "-t"@ && !("--timeout"@ + seq!['=']).is_prefix_of(value) {
        law_first_timeout_counts(given, value, value, views(rest@));
    }
    assert(views(args@).len() == 0 ==> views(args@) =~= Seq::<Seq<char>>::empty());
}

/// A graceful timeout equal to the timeout is added at the end, exactly where that is set, none is
/// found, and there is a timeout; otherwise nothing changes.
pub proof fn law_graceful_timeout_is_added(
    args: Vec<String>,
    cfg: &Config,
    same: &[String],
    flag: &str,
    given: bool,
    timeout: Option<u64>,
    res: Vec<String>,
)
    requires
        call_ensures(maybe_add_graceful_timeout, (args, cfg), res),
        call_ensures(has_flag, (same, flag), given),
        call_ensures(extract_timeout, (same,), timeout),
        same@ == args@,
        flag@ == "--graceful-timeout"@,
    ensures
        !cfg.auto_set_graceful_timeout || given || timeout is None ==> views(res@) == views(args@),
        cfg.auto_set_graceful_timeout && !given ==> (timeout matches Some(t) ==> views(res@)
            == views(args@).push("--graceful-timeout"@).push(decimal(t as nat))),
{
    law_graceful_timeout_equals_the_timeout(views(args@), cfg.auto_set_graceful_timeout);
}

/// A command line is refused exactly where it names no application. Otherwise the application is
/// its second entry, and the arguments that are handed on are what stripping, mapping and adding
/// a graceful timeout, one after another, make of the entries after that.
pub proof fn law_command_line_is_read(
    argv: &Vec<String>,
    cfg: &Config,
    res: Result<Launch, UsageError>,
    passed: Vec<String>,
    stripped: Vec<String>,
    mapped: Vec<String>,
    added: Vec<String>,
)
    requires
        call_ensures(read_command_line, (argv, cfg), res),
        call_ensures(strip_managed_flags, (passed,), stripped),
        call_ensures(map_worker_class, (stripped, cfg.map_uvicorn_deprecated), mapped),
        call_ensures(maybe_add_graceful_timeout, (mapped, cfg), added),
        argv@.len() >= 2 ==> views(passed@) == views(argv@).subrange(2, argv@.len() as int),
    ensures
        res is Err <==> argv@.len() < 2,
        res matches Ok(launch) ==> launch.app@ == argv@[1]@ && views(launch.args@) == views(added@),
{
    law_views_show_every_text(argv@);
    if argv@.len() >= 2 {
        assert(views(argv@).skip(2) =~= views(argv@).subrange(2, argv@.len() as int));
    }
}

/// Gunicorn is started with the application, the own settings and the arguments, in this order.
pub proof fn law_gunicorn_is_started_with(
    app: &str,
    args: &[String],
    pidfile: &str,
    cfg: &Config,
    res: Vec<String>,
)
    requires
        call_ensures(gunicorn_args, (app, args, pidfile, cfg), res),
    ensures
        res@.len() == args@.len() + 9,
        res@[0]@ == app@,
        res@[1]@ == "--pid"@ && res@[2]@ == pidfile@,
        res@[3]@ == "--workers"@ && number(res@[4]@, true) == Some(cfg.min_workers as int),
        res@[5]@ == "--statsd-host"@ && res@[6]@ == cfg.statsd_addr@,
        res@[7]@ == "--statsd-prefix"@ && res@[8]@ == cfg.statsd_prefix@,
        forall|i: int| 0 <= i < args@.len() ==> res@[i + 9]@ == (#[trigger] args@[i])@,
{
    law_views_show_every_text(args@);
    law_views_show_every_text(res@);
    law_started_with_own_settings_first(app@, views(args@), pidfile@, *cfg);
    law_signed_decimal_reads_back(cfg.min_workers as int);
    let all = views(res@);
    assert(all[0] == res@[0]@ && all[1] == res@[1]@ && all[2] == res@[2]@ && all[3] == res@[3]@
        && all[4] == res@[4]@ && all[5] == res@[5]@ && all[6] == res@[6]@ && all[7] == res@[7]@
        && all[8] == res@[8]@);
    assert forall|i: int| 0 <= i < args@.len() implies res@[i + 9]@ == (#[trigger] args@[i])@ by {
        assert(views(args@)[i] == args@[i]@);
        assert(all[i + 9] == res@[i + 9]@);
    }
}

/// Whether a number is what a variable says, where it says one between two bounds, and otherwise
/// the default.
pub open spec fn number_read(
    held: Option<Seq<char>>,
    low: int,
    high: int,
    default: int,
    n: int,
) -> bool {
    match held {
        Some(text) => match number(text, low < 0) {
            Some(m) => n == if low <= m && m <= high {
                m
            } else {
                default
            },
            None => n == default,
        },
        None => n == default,
    }
}

/// Whether a switch is what a variable says: on for five affirmations, off for anything else, and
/// the default where it is missing.
pub open spec fn switch_read(held: Option<Seq<char>>, default: bool, on: bool) -> bool {
    match held {
        Some(text) => on == seq!["1"@, "true"@, "TRUE"@, "yes"@, "YES"@].contains(text),
        None => on == default,
    }
}

/// What a number setting is, in plain words.
proof fn lemma_number_read(env: Seq<(Seq<char>, Seq<char>)>, key: Seq<char>, small: i32, large: u64)
    ensures
        number_read(
            value_in(env, key),
            -0x8000_0000,
            0x7fff_ffff,
            small as int,
            i32_setting(env, key, small),
        ),
        number_read(
            value_in(env, key),
            0,
            0xffff_ffff_ffff_ffff,
            large as int,
            u64_setting(env, key, large),
        ),
{
    law_settings_follow_their_variables(env, key, key, small, large, false);
    if let Some(text) = value_in(env, key) {
        if let Some(m) = number(text, true) {
            law_bounds_are_included(text, -0x8000_0000, 0x7fff_ffff, m);
        } else {
            law_bounds_are_included(text, -0x8000_0000, 0x7fff_ffff, 0);
        }
        if let Some(m) = number(text, false) {
            law_bounds_are_included(text, 0, 0xffff_ffff_ffff_ffff, m);
        } else {
            law_bounds_are_included(text, 0, 0xffff_ffff_ffff_ffff, 0);
        }
    }
}

/// What looking up a variable, and reading it as a setting of each type, give.
pub proof fn law_variables_are_read(
    vars: &Vec<(String, String)>,
    key: &str,
    default: &str,
    found: Option<String>,
    text: String,
    small: i32,
    small_default: i32,
    large: u64,
    large_default: u64,
    on: bool,
    on_default: bool,
)
    requires
        call_ensures(lookup, (vars, key), found),
        call_ensures(env_var, (vars, key, default), text),
        call_ensures(env_var_i32, (vars, key, small_default), small),
        call_ensures(env_var_u64, (vars, key, large_default), large),
        call_ensures(env_var_bool, (vars, key, on_default), on),
    ensures
        held(found) == value_in(env_view(vars@), key@),
        found matches Some(t) ==> text@ == t@,
        found is None ==> text@ == default@,
        number_read(held(found), -0x8000_0000, 0x7fff_ffff, small_default as int, small as int),
        number_read(held(found), 0, 0xffff_ffff_ffff_ffff, large_default as int, large as int),
        switch_read(held(found), on_default, on),
{
    law_missing_texts_are_seen(found);
    let env = env_view(vars@);
    law_settings_follow_their_variables(
        env,
        key@,
        default@,
        small_default,
        large_default,
        on_default,
    );
    lemma_number_read(env, key@, small_default, large_default);
}

/// The settings: which variable gives each of them, and what each is without it.
pub proof fn law_settings_are_read(
    vars: &Vec<(String, String)>,
    default_max: i32,
    cfg: Config,
)
    requires
        call_ensures(Config::from_env, (vars, default_max), cfg),
    ensures
        ({
            let env = env_view(vars@);
            &&& number_read(
                value_in(env, "GUNICORN_AUTOSCALER_MIN_WORKERS"@),
                -0x8000_0000,
                0x7fff_ffff,
                2 as int,
                cfg.min_workers as int,
            )
            &&& number_read(
                value_in(env, "GUNICORN_AUTOSCALER_MAX_WORKERS"@),
                -0x8000_0000,
                0x7fff_ffff,
                default_max as int,
                cfg.max_workers as int,
            )
            &&& number_read(
                value_in(env, "GUNICORN_AUTOSCALER_MAX_STEP_UP"@),
                -0x8000_0000,
                0x7fff_ffff,
                16 as int,
                cfg.max_step_up as int,
            )
            &&& number_read(
                value_in(env, "GUNICORN_AUTOSCALER_BURST_ADD_WORKERS"@),
                -0x8000_0000,
                0x7fff_ffff,
                8 as int,
                cfg.burst_add_workers as int,
            )
            &&& number_read(
                value_in(env, "GUNICORN_AUTOSCALER_WINDOW_SECONDS"@),
                0,
                0xffff_ffff_ffff_ffff,
                20,
                cfg.window_seconds as int,
            )
            &&& number_read(
                value_in(env, "GUNICORN_AUTOSCALER_TICK_MS"@),
                0,
                0xffff_ffff_ffff_ffff,
                1000,
                cfg.tick_ms as int,
            )
            &&& number_read(
                value_in(env, "GUNICORN_AUTOSCALER_IDLE_SECONDS"@),
                0,
                0xffff_ffff_ffff_ffff,
                60,
                cfg.idle_seconds as int,
            )
            &&& number_read(
                value_in(env, "GUNICORN_AUTOSCALER_UP_COOLDOWN_MS"@),
                0,
                0xffff_ffff_ffff_ffff,
                2000,
                cfg.up_cooldown_ms as int,
            )
            &&& number_read(
                value_in(env, "GUNICORN_AUTOSCALER_DOWN_COOLDOWN_MS"@),
                0,
                0xffff_ffff_ffff_ffff,
                15000,
                cfg.down_cooldown_ms as int,
            )
            &&& number_read(
                value_in(env, "GUNICORN_AUTOSCALER_NO_DOWNSCALE_MS_AFTER_UP"@),
                0,
                0xffff_ffff_ffff_ffff,
                60000,
                cfg.no_downscale_for_ms_after_up as int,
            )
            &&& number_read(
                value_in(env, "GUNICORN_AUTOSCALER_BURST_WINDOW_SECONDS"@),
                0,
                0xffff_ffff_ffff_ffff,
                3,
                cfg.burst_window_seconds as int,
            )
            &&& number_read(
                value_in(env, "GUNICORN_AUTOSCALER_BURST_COOLDOWN_MS"@),
                0,
                0xffff_ffff_ffff_ffff,
                5000,
                cfg.burst_cooldown_ms as int,
            )
            &&& switch_read(
                value_in(env, "GUNICORN_AUTOSCALER_BURST_ENABLED"@),
                true,
                cfg.burst_enabled,
            )
            &&& switch_read(
                value_in(env, "GUNICORN_AUTOSCALER_MAP_UVICORN_DEPRECATED"@),
                false,
                cfg.map_uvicorn_deprecated,
            )
            &&& switch_read(
                value_in(env, "GUNICORN_AUTOSCALER_AUTO_SET_GRACEFUL_TIMEOUT"@),
                true,
                cfg.auto_set_graceful_timeout,
            )
            &&& value_in(env, "GUNICORN_AUTOSCALER_STATSD_ADDR"@) is None ==> cfg.statsd_addr@
                == "127.0.0.1:9125"@
            &&& value_in(env, "GUNICORN_AUTOSCALER_STATSD_ADDR"@) matches Some(t)
                ==> cfg.statsd_addr@ == t
            &&& value_in(env, "GUNICORN_AUTOSCALER_STATSD_PREFIX"@) is None ==> cfg.statsd_prefix@
                == "gunicorn"@
            &&& value_in(env, "GUNICORN_AUTOSCALER_STATSD_PREFIX"@) matches Some(t)
                ==> cfg.statsd_prefix@ == t
        }),
{
    let env = env_view(vars@);
    lemma_number_read(env, "GUNICORN_AUTOSCALER_MIN_WORKERS"@, 2, 0);
    lemma_number_read(env, "GUNICORN_AUTOSCALER_MAX_WORKERS"@, default_max, 0);
    lemma_number_read(env, "GUNICORN_AUTOSCALER_MAX_STEP_UP"@, 16, 0);
    lemma_number_read(env, "GUNICORN_AUTOSCALER_BURST_ADD_WORKERS"@, 8, 0);
    lemma_number_read(env, "GUNICORN_AUTOSCALER_WINDOW_SECONDS"@, 0, 20);
    lemma_number_read(env, "GUNICORN_AUTOSCALER_TICK_MS"@, 0, 1000);
    lemma_number_read(env, "GUNICORN_AUTOSCALER_IDLE_SECONDS"@, 0, 60);
    lemma_number_read(env, "GUNICORN_AUTOSCALER_UP_COOLDOWN_MS"@, 0, 2000);
    lemma_number_read(env, "GUNICORN_AUTOSCALER_DOWN_COOLDOWN_MS"@, 0, 15000);
    lemma_number_read(env, "GUNICORN_AUTOSCALER_NO_DOWNSCALE_MS_AFTER_UP"@, 0, 60000);
    lemma_number_read(env, "GUNICORN_AUTOSCALER_BURST_WINDOW_SECONDS"@, 0, 3);
    lemma_number_read(env, "GUNICORN_AUTOSCALER_BURST_COOLDOWN_MS"@, 0, 5000);
    law_settings_follow_their_variables(
        env,
        "GUNICORN_AUTOSCALER_BURST_ENABLED"@,
        ""@,
        0,
        0,
        true,
    );
    law_settings_follow_their_variables(
        env,
        "GUNICORN_AUTOSCALER_MAP_UVICORN_DEPRECATED"@,
        ""@,
        0,
        0,
        false,
    );
    law_settings_follow_their_variables(
        env,
        "GUNICORN_AUTOSCALER_AUTO_SET_GRACEFUL_TIMEOUT"@,
        ""@,
        0,
        0,
        true,
    );
    law_settings_follow_their_variables(
        env,
        "GUNICORN_AUTOSCALER_STATSD_ADDR"@,
        "127.0.0.1:9125"@,
        0,
        0,
        true,
    );
    law_settings_follow_their_variables(
        env,
        "GUNICORN_AUTOSCALER_STATSD_PREFIX"@,
        "gunicorn"@,
        0,
        0,
        true,
    );
}

/// The settings that are fractional numbers are looked up under their names.
pub proof fn law_thresholds_are_looked_up(vars: &Vec<(String, String)>, res: Thresholds)
    requires
        call_ensures(Thresholds::from_env, (vars,), res),
    ensures
        ({
            let env = env_view(vars@);
            &&& held(res.target_conc_per_worker) == value_in(
                env,
                "GUNICORN_AUTOSCALER_TARGET_CONC_PER_WORKER"@,
            )
            &&& held(res.slo_p95_ms) == value_in(env, "GUNICORN_AUTOSCALER_SLO_P95_MS"@)
            &&& held(res.burst_rps_jump) == value_in(env, "GUNICORN_AUTOSCALER_BURST_RPS_JUMP"@)
            &&& held(res.burst_min_rps) == value_in(env, "GUNICORN_AUTOSCALER_BURST_MIN_RPS"@)
        }),
{
}

/// Settings are refused exactly where the least number of workers is not positive, or else the
/// greatest is below it.
pub proof fn law_settings_are_validated(cfg: &Config, res: Result<(), ConfigError>)
    requires
        call_ensures(Config::validate, (cfg,), res),
    ensures
        res is Err <==> cfg.min_workers <= 0 || cfg.max_workers < cfg.min_workers,
        res matches Err(e) ==> (e == ConfigError::MinWorkers <==> cfg.min_workers <= 0),
{
}

/// What is written is read back, by every reader whose range it fits.
pub proof fn law_written_numbers_are_read_back(
    n: u64,
    text: String,
    same: &str,
    wide: Option<u64>,
    narrow: Option<u32>,
)
    requires
        call_ensures(format_u64, (n,), text),
        same@ == text@,
        call_ensures(parse_u64, (same,), wide),
        call_ensures(parse_u32, (same,), narrow),
    ensures
        wide == Some(n),
        n <= 0xffff_ffff ==> narrow is Some && narrow->Some_0 == n,
        n > 0xffff_ffff ==> narrow is None,
{
    law_decimal_reads_back(n as nat);
    law_bounds_are_included(text@, 0, 0xffff_ffff_ffff_ffff, n as int);
    law_bounds_are_included(text@, 0, 0xffff_ffff, n as int);
}

/// The same, for numbers that may be negative.
pub proof fn law_written_signed_numbers_are_read_back(
    n: i32,
    text: String,
    same: &str,
    back: Option<i32>,
)
    requires
        call_ensures(format_i32, (n,), text),
        same@ == text@,
        call_ensures(parse_i32, (same,), back),
    ensures
        back == Some(n),
{
    law_signed_decimal_reads_back(n as int);
    law_bounds_are_included(text@, -0x8000_0000, 0x7fff_ffff, n as int);
}

/// A number is read exactly where the text denotes one that fits.
pub proof fn law_numbers_are_read(
    text: &str,
    wide: Option<u64>,
    narrow: Option<u32>,
    signed: Option<i32>,
)
    requires
        call_ensures(parse_u64, (text,), wide),
        call_ensures(parse_u32, (text,), narrow),
        call_ensures(parse_i32, (text,), signed),
    ensures
        wide matches Some(n) ==> number(text@, false) == Some(n as int),
        wide is None ==> number(text@, false) is None || number(text@, false)->Some_0
            > 0xffff_ffff_ffff_ffff,
        narrow matches Some(n) ==> number(text@, false) == Some(n as int),
        narrow is None ==> number(text@, false) is None || number(text@, false)->Some_0
            > 0xffff_ffff,
        signed matches Some(n) ==> number(text@, true) == Some(n as int),
        signed is None ==> number(text@, true) is None || number(text@, true)->Some_0 > 0x7fff_ffff
            || number(text@, true)->Some_0 < -0x8000_0000,
{
    if let Some(n) = number(text@, false) {
        law_bounds_are_included(text@, 0, 0xffff_ffff_ffff_ffff, n);
        law_bounds_are_included(text@, 0, 0xffff_ffff, n);
        law_not_negative(text@);
    }
    if let Some(n) = wide {
        law_bounds_are_included(text@, 0, 0xffff_ffff_ffff_ffff, n as int);
    }
    if let Some(n) = narrow {
        law_bounds_are_included(text@, 0, 0xffff_ffff, n as int);
    }
    if let Some(n) = signed {
        law_bounds_are_included(text@, -0x8000_0000, 0x7fff_ffff, n as int);
    }
    if let Some(n) = number(text@, true) {
        law_bounds_are_included(text@, -0x8000_0000, 0x7fff_ffff, n);
    }
}

/// A text without a sign for it denotes no negative number.
pub proof fn law_not_negative(text: Seq<char>)
    requires
        number(text, false) is Some,
    ensures
        number(text, false)->Some_0 >= 0,
{
    law_nothing_else_denotes_a_number(text, false);
    if '0' <= text[0] <= '9' {
        law_digits_denote_a_number(text, false);
    } else {
        let digits = text.skip(1);
        assert(text =~= seq!['+'] + digits);
        assert forall|i: int| 0 <= i < digits.len() implies '0' <= #[trigger] digits[i] <= '9' by {
            assert(digits[i] == text[i + 1]);
        }
        law_digits_denote_a_number(digits, false);
    }
}

/// What a line tells is decided by the end of its name and by its type alone, and its value comes
/// through as it stands; every other line with a colon and a type is ignored.
pub proof fn law_line_tells_by_name_and_type(
    line: &str,
    prefix: &str,
    name: Seq<char>,
    value: Seq<char>,
    typ: Seq<char>,
    tail: Seq<char>,
    res: Result<Metric, ParseError>,
)
    requires
        call_ensures(parse_statsd_line, (line, prefix), res),
        line@ == name + seq![':'] + value + seq!['|'] + typ + tail,
        !name.contains(':'),
        !value.contains('|'),
        !typ.contains('|'),
        tail.len() == 0 || tail[0] == '|',
    ensures
        ({
            let full = trimmed(name);
            let requests = typ == seq!['c'] && ".requests"@.is_suffix_of(full);
            let duration = (typ == seq!['m', 's'] || typ == seq!['h'])
                && ".request.duration"@.is_suffix_of(full);
            let workers = typ == seq!['g'] && ".workers"@.is_suffix_of(full);
            match res {
                Ok(Metric::Requests { value: v, .. }) => requests && v@ == value,
                Ok(Metric::Duration { value: v }) => duration && v@ == value,
                Ok(Metric::Workers { value: v }) => workers && v@ == value,
                Ok(Metric::Ignored) => !requests && !duration && !workers,
                Err(_) => false,
            }
        }),
{
    law_name_and_type_decide(name, value, typ, tail, prefix@);
    lemma_seen(res);
}

/// What was read is seen as it is.
proof fn lemma_seen(res: Result<Metric, ParseError>)
    ensures
        match res {
            Ok(Metric::Requests { value, rate }) => outcome(res) == Ok::<MetricView, ParseError>(
                MetricView::Requests { value: value@, rate: held(rate) },
            ),
            Ok(Metric::Duration { value }) => outcome(res) == Ok::<MetricView, ParseError>(
                MetricView::Duration { value: value@ },
            ),
            Ok(Metric::Workers { value }) => outcome(res) == Ok::<MetricView, ParseError>(
                MetricView::Workers { value: value@ },
            ),
            Ok(Metric::Ignored) => outcome(res) == Ok::<MetricView, ParseError>(
                MetricView::Ignored,
            ),
            Err(e) => outcome(res) == Err::<MetricView, ParseError>(e),
        },
{
    match res {
        Ok(Metric::Requests { value, rate }) => {
            law_missing_texts_are_seen(rate);
            match rate {
                Some(r) => law_metrics_are_seen_as_they_are(value, r, ParseError::NoColon),
                None => law_metrics_are_seen_as_they_are(value, value, ParseError::NoColon),
            }
        },
        Ok(Metric::Duration { value }) => law_metrics_are_seen_as_they_are(
            value,
            value,
            ParseError::NoColon,
        ),
        Ok(Metric::Workers { value }) => law_metrics_are_seen_as_they_are(
            value,
            value,
            ParseError::NoColon,
        ),
        _ => {},
    }
}

/// A line is refused exactly where it has no colon, or no bar after the first one.
pub proof fn law_line_is_refused(
    line: &str,
    prefix: &str,
    name: Seq<char>,
    rest: Seq<char>,
    res: Result<Metric, ParseError>,
)
    requires
        call_ensures(parse_statsd_line, (line, prefix), res),
        !name.contains(':'),
        line@ == name || line@ == name + seq![':'] + rest,
    ensures
        line@ == name ==> res == Err::<Metric, ParseError>(ParseError::NoColon),
        line@ == name + seq![':'] + rest && !rest.contains('|') ==> res == Err::<
            Metric,
            ParseError,
        >(ParseError::NoType),
        line@ == name + seq![':'] + rest && rest.contains('|') ==> res is Ok,
{
    law_lines_that_are_refused(name, rest, prefix@);
    lemma_seen(res);
}

/// The rate of requests is what the last part with `@` after the type says: none without one.
pub proof fn law_line_tells_the_last_rate(
    line: &str,
    more: &str,
    prefix: &str,
    name: Seq<char>,
    value: Seq<char>,
    typ: Seq<char>,
    tail: Seq<char>,
    part: Seq<char>,
    res: Result<Metric, ParseError>,
    res_more: Result<Metric, ParseError>,
)
    requires
        call_ensures(parse_statsd_line, (line, prefix), res),
        call_ensures(parse_statsd_line, (more, prefix), res_more),
        line@ == name + seq![':'] + value + seq!['|'] + typ + tail,
        more@ == name + seq![':'] + value + seq!['|'] + typ + tail + seq!['|'] + part,
        !name.contains(':'),
        !value.contains('|'),
        !typ.contains('|'),
        tail.len() == 0 || tail[0] == '|',
        !part.contains('|'),
    ensures
        tail.len() == 0 ==> (res matches Ok(Metric::Requests { rate, .. }) ==> rate is None),
        part.len() > 0 && part[0] == '@' ==> (res_more matches Ok(Metric::Requests { rate, .. })
            ==> held(rate) == Some(part.subrange(1, part.len() as int))),
        part.len() == 0 || part[0] != '@' ==> outcome(res_more) == outcome(res),
{
    law_last_rate_counts(name, value, typ, tail, part, prefix@);
    if tail.len() == 0 {
        let head = name + seq![':'] + value + seq!['|'] + typ;
        assert(head + tail =~= head);
    }
    lemma_seen(res);
    lemma_seen(res_more);
    if let Ok(Metric::Requests { rate, .. }) = res {
        law_missing_texts_are_seen(rate);
    }
}

/// A text is read line by line: its first line as it would be alone, without the carriage return
/// before the line feed, and the rest as it would be alone.
pub proof fn law_text_is_read_line_by_line(
    text: &str,
    rest: &str,
    line: &str,
    prefix: &str,
    first: Seq<char>,
    res: Vec<Result<Metric, ParseError>>,
    res_rest: Vec<Result<Metric, ParseError>>,
    res_line: Result<Metric, ParseError>,
)
    requires
        call_ensures(parse_text, (text, prefix), res),
        call_ensures(parse_text, (rest, prefix), res_rest),
        call_ensures(parse_statsd_line, (line, prefix), res_line),
        text@ == first + seq!['\n'] + rest@,
        !first.contains('\n'),
        line@ == if first.len() > 0 && first[first.len() - 1] == '\r' {
            first.subrange(0, first.len() - 1)
        } else {
            first
        },
    ensures
        res@.len() == res_rest@.len() + 1,
        outcome(res@[0]) == outcome(res_line),
        forall|i: int|
            0 <= i < res_rest@.len() ==> outcome(res@[i + 1]) == outcome(#[trigger] res_rest@[i]),
{
    law_lines_end_with_line_feeds(first, rest@);
    law_every_line_is_read(text@, prefix@);
    law_every_line_is_read(rest@, prefix@);
    law_all_outcomes_are_seen(res@);
    law_all_outcomes_are_seen(res_rest@);
    assert(outcomes(res@)[0] == outcome(res@[0]));
    assert(lines(text@)[0] == line@);
    assert(parsed_lines(text@, prefix@)[0] == parsed(lines(text@)[0], prefix@));
    assert forall|i: int| 0 <= i < res_rest@.len() implies outcome(res@[i + 1]) == outcome(
        #[trigger] res_rest@[i],
    ) by {
        assert(outcomes(res@)[i + 1] == outcome(res@[i + 1]));
        assert(outcomes(res_rest@)[i] == outcome(res_rest@[i]));
        assert(lines(text@)[i + 1] == lines(rest@)[i]);
        assert(parsed_lines(text@, prefix@)[i + 1] == parsed(lines(text@)[i + 1], prefix@));
        assert(parsed_lines(rest@, prefix@)[i] == parsed(lines(rest@)[i], prefix@));
    }
}

/// A text without a line feed is one line, as it stands, or none where it is empty.
pub proof fn law_text_of_one_line(
    text: &str,
    prefix: &str,
    res: Vec<Result<Metric, ParseError>>,
    res_line: Result<Metric, ParseError>,
)
    requires
        call_ensures(parse_text, (text, prefix), res),
        call_ensures(parse_statsd_line, (text, prefix), res_line),
        !text@.contains('\n'),
    ensures
        text@.len() == 0 ==> res@.len() == 0,
        text@.len() > 0 ==> res@.len() == 1 && outcome(res@[0]) == outcome(res_line),
{
    law_lines_end_with_line_feeds(text@, Seq::empty());
    law_every_line_is_read(text@, prefix@);
    law_all_outcomes_are_seen(res@);
    if text@.len() > 0 {
        assert(outcomes(res@)[0] == outcome(res@[0]));
        assert(parsed_lines(text@, prefix@)[0] == parsed(lines(text@)[0], prefix@));
    }
}

/// A datagram is read as the text that its bytes are, decoded where they are valid UTF-8.
pub proof fn law_packet_is_read_as_text(
    bytes: &[u8],
    text: &str,
    prefix: &str,
    res: Vec<Result<Metric, ParseError>>,
    res_text: Vec<Result<Metric, ParseError>>,
)
    requires
        call_ensures(parse_packet, (bytes, prefix), res),
        call_ensures(parse_text, (text, prefix), res_text),
        text@ == lossy_text(bytes@) || (valid_utf8(bytes@) && text@ == decode_utf8(bytes@)),
    ensures
        outcomes(res@) == outcomes(res_text@),
{
}

/// What a count of requests tells in numbers: the count that was sent, or zero; and the rate that
/// was sent, or one where there is none or it is at most zero.
pub proof fn law_requests_are_read_in_numbers<F: Copy>(
    m: &Metric,
    value: Option<Parsed<F>>,
    rate: Option<Parsed<F>>,
    zero: F,
    one: F,
    res: Option<Reading<F>>,
)
    requires
        call_ensures(Metric::read::<F>, (m, value, rate, zero, one), res),
        m is Requests,
    ensures
        res matches Some(Reading::Requests { count, rate: r }) && count == (match value {
            Some(v) => v.value,
            None => zero,
        }) && r == (match rate {
            Some(sent) => if sent.at_most_zero {
                one
            } else {
                sent.value
            },
            None => one,
        }),
{
    lemma_content(*m);
    law_requests_in_numbers(m@, value, rate, zero, one);
}

/// What other metrics tell in numbers: a duration that was sent, or zero; a number of workers that
/// was sent, unless it is negative or missing; and nothing where a metric is ignored.
pub proof fn law_other_metrics_are_read_in_numbers<F: Copy>(
    m: &Metric,
    value: Option<Parsed<F>>,
    rate: Option<Parsed<F>>,
    zero: F,
    one: F,
    res: Option<Reading<F>>,
)
    requires
        call_ensures(Metric::read::<F>, (m, value, rate, zero, one), res),
    ensures
        m is Duration ==> (res matches Some(Reading::Duration { ms }) && ms == (match value {
            Some(v) => v.value,
            None => zero,
        })),
        m is Workers ==> (match value {
            Some(v) => if v.at_least_zero {
                res matches Some(Reading::Workers { number: n }) && n == v.value
            } else {
                res is None
            },
            None => res is None,
        }),
        m is Ignored ==> res is None,
{
    lemma_content(*m);
    match value {
        Some(v) => law_other_metrics_in_numbers(m@, v, rate, zero, one),
        None => {
            let any = Parsed { value: zero, at_least_zero: false, at_most_zero: false };
            law_other_metrics_in_numbers(m@, any, rate, zero, one);
        },
    }
}

/// A metric is seen as the kind that it is.
proof fn lemma_content(m: Metric)
    ensures
        m is Requests <==> m@ is Requests,
        m is Duration <==> m@ is Duration,
        m is Workers <==> m@ is Workers,
        m is Ignored <==> m@ is Ignored,
{
    lemma_seen(Ok(m));
    lemma_outcome_of(m);
}

/// What a successful reading shows is the metric's content.
proof fn lemma_outcome_of(m: Metric)
    ensures
        outcome(Ok(m)) == Ok::<MetricView, ParseError>(m@),
{
}

/// The content of `cpu.max` limits anything exactly where it consists of two words, the first of
/// which is not `max`: the quota and the period.
pub proof fn law_cpu_max_is_read(
    content: &str,
    before: Seq<char>,
    quota: Seq<char>,
    between: Seq<char>,
    period: Seq<char>,
    after: Seq<char>,
    res: Option<CpuQuota>,
)
    requires
        call_ensures(read_cpu_max, (content,), res),
        content@ == before + quota + between + period + after,
        forall|i: int| 0 <= i < before.len() ==> white(#[trigger] before[i]),
        forall|i: int| 0 <= i < between.len() ==> white(#[trigger] between[i]),
        forall|i: int| 0 <= i < after.len() ==> white(#[trigger] after[i]),
        forall|i: int| 0 <= i < quota.len() ==> !white(#[trigger] quota[i]),
        forall|i: int| 0 <= i < period.len() ==> !white(#[trigger] period[i]),
        quota.len() > 0,
        period.len() > 0,
        between.len() > 0,
    ensures
        quota == "max"@ ==> res is None,
        quota != "max"@ ==> (res matches Some(q) && q.quota@ == quota && q.period@ == period),
{
    law_two_words_are_quota_and_period(before, quota, between, period, after);
}

/// Content of any other number of words limits nothing.
pub proof fn law_cpu_max_of_other_words(content: &str, res: Option<CpuQuota>)
    requires
        call_ensures(read_cpu_max, (content,), res),
        words(content@).len() != 2,
    ensures
        res is None,
{
    law_other_content_limits_nothing(content@);
}

/// Where the number of processors comes from: from `cpu.max` where its period is positive, from the
/// older files where it limits nothing or its period is not positive and both of theirs are, and
/// from nowhere otherwise, nor where a number of `cpu.max` cannot be read.
pub proof fn law_processors_are_chosen<F: Copy>(
    cpu_max: Option<(Option<Amount<F>>, Option<Amount<F>>)>,
    cfs_quota: Option<Amount<F>>,
    cfs_period: Option<Amount<F>>,
    res: Option<(F, F)>,
)
    requires
        call_ensures(effective_cores::<F>, (cpu_max, cfs_quota, cfs_period), res),
    ensures
        ({
            let older = match (cfs_quota, cfs_period) {
                (Some(q), Some(p)) => res == (if q.positive && p.positive {
                    Some((q.value, p.value))
                } else {
                    None
                }),
                _ => res is None,
            };
            match cpu_max {
                Some((Some(q), Some(p))) => if p.positive {
                    res == Some((q.value, p.value))
                } else {
                    older
                },
                Some(_) => res is None,
                None => older,
            }
        }),
{
    lemma_older_files(cfs_quota, cfs_period);
    match cpu_max {
        Some((Some(q), Some(p))) => {
            law_where_the_processors_come_from(q, p, None, cfs_quota, cfs_period);
        },
        Some((Some(q), None)) => {
            law_where_the_processors_come_from(q, q, Some(q), cfs_quota, cfs_period);
        },
        Some((None, Some(p))) => {
            law_where_the_processors_come_from(p, p, Some(p), cfs_quota, cfs_period);
        },
        _ => {},
    }
}

/// What the older files give.
proof fn lemma_older_files<F>(cfs_quota: Option<Amount<F>>, cfs_period: Option<Amount<F>>)
    ensures
        match (cfs_quota, cfs_period) {
            (Some(q), Some(p)) => quota_chosen(None, cfs_quota, cfs_period) == (if q.positive
                && p.positive {
                Some((q.value, p.value))
            } else {
                None
            }),
            _ => quota_chosen(None, cfs_quota, cfs_period) is None,
        },
{
    match (cfs_quota, cfs_period) {
        (Some(q), Some(p)) => law_where_the_processors_come_from(q, p, None, None, None),
        (Some(q), None) => law_where_the_processors_come_from(q, q, Some(q), None, None),
        (None, Some(p)) => law_where_the_processors_come_from(p, p, Some(p), None, None),
        _ => {},
    }
}

/// A process number is read between white space, where it is a number that fits.
pub proof fn law_process_number_is_read(
    content: &str,
    before: Seq<char>,
    text: Seq<char>,
    after: Seq<char>,
    res: Option<u32>,
)
    requires
        call_ensures(parse_pid, (content,), res),
        content@ == before + text + after,
        forall|i: int| 0 <= i < before.len() ==> white(#[trigger] before[i]),
        forall|i: int| 0 <= i < after.len() ==> white(#[trigger] after[i]),
        text.len() == 0 || (!white(text[0]) && !white(text[text.len() - 1])),
    ensures
        res matches Some(n) ==> number(text, false) == Some(n as int),
        res is None ==> number(text, false) is None || number(text, false)->Some_0 > 0xffff_ffff,
{
    law_trimming_cuts_both_sides(before, text, after);
    if let Some(n) = res {
        law_bounds_are_included(text, 0, 0xffff_ffff, n as int);
    }
    if let Some(n) = number(text, false) {
        law_not_negative(text);
        law_bounds_are_included(text, 0, 0xffff_ffff, n);
    }
}

/// What is decided: the demand, or one more than there are where the server is active and slow and
/// that is more; cut off at the limits.
pub proof fn law_decision<F>(obs: &Observation<F>, current: i32, cfg: &Config, res: i32)
    requires
        call_ensures(decide::<F>, (obs, current, cfg), res),
        cfg.min_workers <= cfg.max_workers,
    ensures
        ({
            let wanted = if obs.active && obs.slow && obs.demand <= current {
                current + 1
            } else {
                obs.demand as int
            };
            &&& cfg.min_workers <= wanted <= cfg.max_workers ==> res == wanted
            &&& wanted < cfg.min_workers ==> res == cfg.min_workers
            &&& wanted > cfg.max_workers ==> res == cfg.max_workers
        }),
{
    law_surge_and_overload(*obs);
    law_decision_is_the_demand(obs.demand as int, current as int, *cfg);
}

/// A controller begins with the least number of workers, and with all waiting times over.
pub proof fn law_controller_begins<F: Copy>(
    cfg: &Config,
    now: u64,
    no_rps: F,
    res: Controller<F>,
)
    requires
        call_ensures(Controller::<F>::new, (cfg, now, no_rps), res),
    ensures
        res.wf(*cfg),
        res.current_workers == cfg.min_workers,
        res.last_up == now - cfg.up_cooldown_ms * 1_000_000,
        res.last_down == now - cfg.down_cooldown_ms * 1_000_000,
        res.last_burst == now - cfg.burst_cooldown_ms * 1_000_000,
        res.idle_since == now,
        res.down_streak == 0,
        res.prev_short_rps == no_rps,
        res.phase == Phase::Start,
{
}

/// A step makes of the state, and asks for, what is next.
pub proof fn law_step_is_what_is_next<F: Copy>(
    c: &mut Controller<F>,
    cfg: &Config,
    obs: &Observation<F>,
    now: u64,
    res: Action,
)
    requires
        call_ensures(Controller::<F>::step, (c, cfg, obs, now), res),
    ensures
        (*final(c), res) == old(c).next(*cfg, *obs, now),
        final(c).wf(*cfg),
{
}

/// The first step of a tick heeds a surge exactly where bursts are enabled, the rate is high and
/// has risen, the waiting time since the last burst is over, and there are fewer workers than there
/// may be. Nothing else plays a part.
pub proof fn law_step_heeds_a_surge<F: Copy>(
    c: &mut Controller<F>,
    cfg: &Config,
    obs: &Observation<F>,
    now: u64,
    res: Action,
)
    requires
        call_ensures(Controller::<F>::step, (c, cfg, obs, now), res),
        old(c).wf(*cfg),
        old(c).phase is Start,
    ensures
        ({
            let room = cfg.max_workers - final(c).current_workers;
            &&& final(c).phase is Bursting <==> cfg.burst_enabled && obs.high && obs.risen && (
            cfg.burst_cooldown_ms == 0 || now - old(c).last_burst >= cfg.burst_cooldown_ms
                * 1_000_000) && room > 0
            &&& final(c).phase matches Phase::Bursting { left } ==> left == if room
                <= cfg.burst_add_workers {
                room
            } else {
                cfg.burst_add_workers as int
            }
            &&& final(c).current_workers == (match obs.workers_gauge {
                Some(w) => if cfg.min_workers <= w && w <= cfg.max_workers {
                    w
                } else {
                    old(c).current_workers
                },
                None => old(c).current_workers,
            })
        }),
{
    law_start_of_a_tick(*old(c), *cfg, *obs, now);
}

/// A new window is empty.
pub proof fn law_window_begins<N: Copy>(window_seconds: u64, zero: N, res: State<N>)
    requires
        call_ensures(State::<N>::new, (window_seconds, zero), res),
    ensures
        res.wf(),
        res@.buckets.len() == 0,
        res@.window_seconds == window_seconds,
        res@.zero == zero,
        res@.workers_gauge is None,
{
}

/// Bringing a window up to date makes of it what it shows at that second.
pub proof fn law_window_is_brought_up_to_date<N: Copy>(
    s: &mut State<N>,
    now_sec: u64,
    res: Result<(), WindowError>,
)
    requires
        call_ensures(State::<N>::ensure_bucket, (s, now_sec), res),
    ensures
        res is Ok,
        final(s).wf(),
        final(s)@ == old(s)@.at(now_sec),
{
}

/// A duration from 1 to 1000000 milliseconds is recorded as it is, a shorter one as 1 and a longer
/// one as 1000000, in the newest second of what the window shows; nothing else changes.
pub proof fn law_duration_is_taken_in<N: Copy>(
    s: &mut State<N>,
    now_sec: u64,
    ms: u64,
    res: Result<(), WindowError>,
)
    requires
        call_ensures(State::<N>::ingest_duration_ms, (s, now_sec, ms), res),
        old(s).wf(),
    ensures
        ({
            let (there, then) = (old(s)@.at(now_sec), final(s)@);
            let last = there.buckets.len() - 1;
            let kept = if ms == 0 {
                1
            } else if ms > 1_000_000 {
                1_000_000
            } else {
                ms
            };
            &&& res is Ok
            &&& last >= 0
            &&& then.buckets.len() == there.buckets.len()
            &&& then.buckets[last].durations == there.buckets[last].durations.insert(kept)
            &&& then.buckets[last].sec == there.buckets[last].sec
            &&& then.buckets[last].req_count == there.buckets[last].req_count
            &&& forall|i: int| 0 <= i < last ==> #[trigger] then.buckets[i] == there.buckets[i]
            &&& then.window_seconds == old(s)@.window_seconds
            &&& then.zero == old(s)@.zero
            &&& then.workers_gauge == old(s)@.workers_gauge
        }),
{
    law_duration_is_recorded(old(s)@, now_sec, ms);
}

/// A count of requests is added to that of the newest second of what the window shows; nothing else
/// changes.
pub proof fn law_requests_are_taken_in<N: Copy, A: Fn(N, N) -> N>(
    s: &mut State<N>,
    now_sec: u64,
    count: N,
    plus: A,
    res: Result<(), WindowError>,
)
    requires
        call_ensures(State::<N>::ingest_request::<A>, (s, now_sec, count, plus), res),
        old(s).wf(),
    ensures
        ({
            let (there, then) = (old(s)@.at(now_sec), final(s)@);
            let last = there.buckets.len() - 1;
            &&& res is Ok
            &&& last >= 0
            &&& then.buckets.len() == there.buckets.len()
            &&& call_ensures(
                plus,
                (there.buckets[last].req_count, count),
                then.buckets[last].req_count,
            )
            &&& then.buckets[last].sec == there.buckets[last].sec
            &&& then.buckets[last].durations == there.buckets[last].durations
            &&& forall|i: int| 0 <= i < last ==> #[trigger] then.buckets[i] == there.buckets[i]
            &&& then.window_seconds == old(s)@.window_seconds
            &&& then.zero == old(s)@.zero
            &&& then.workers_gauge == old(s)@.workers_gauge
        }),
{
    law_requests_are_counted(old(s)@, now_sec, final(s)@.newest().req_count);
}

/// A number of workers that is reported is noted as it is; nothing else changes.
pub proof fn law_workers_are_taken_in<N: Copy, A: Fn(N, N) -> N>(
    s: &mut State<N>,
    now_sec: u64,
    n: i32,
    plus: A,
    res: Result<(), WindowError>,
)
    requires
        call_ensures(State::<N>::ingest::<A>, (s, now_sec, Sample::Workers(n), plus), res),
    ensures
        res is Ok,
        final(s)@.workers_gauge == Some(n),
        final(s)@.buckets == old(s)@.buckets,
        final(s)@.window_seconds == old(s)@.window_seconds,
        final(s)@.zero == old(s)@.zero,
{
}

/// Requests and durations that are taken in as samples change the window as they do by themselves.
pub proof fn law_samples_are_taken_in<N: Copy, A: Fn(N, N) -> N>(
    s: &mut State<N>,
    now_sec: u64,
    sample: Sample<N>,
    plus: A,
    res: Result<(), WindowError>,
)
    requires
        call_ensures(State::<N>::ingest::<A>, (s, now_sec, sample, plus), res),
        old(s).wf(),
    ensures
        sample matches Sample::DurationMs(ms) ==> {
            let there = old(s)@.at(now_sec);
            let last = there.buckets.len() - 1;
            let kept = if ms == 0 {
                1
            } else if ms > 1_000_000 {
                1_000_000
            } else {
                ms
            };
            &&& final(s)@.buckets.len() == there.buckets.len()
            &&& final(s)@.buckets[last].durations == there.buckets[last].durations.insert(kept)
            &&& final(s)@.buckets[last].req_count == there.buckets[last].req_count
            &&& forall|i: int|
                0 <= i < last ==> #[trigger] final(s)@.buckets[i] == there.buckets[i]
            &&& final(s)@.workers_gauge == old(s)@.workers_gauge
        },
        sample matches Sample::Requests(count) ==> {
            let there = old(s)@.at(now_sec);
            let last = there.buckets.len() - 1;
            &&& final(s)@.buckets.len() == there.buckets.len()
            &&& call_ensures(
                plus,
                (there.buckets[last].req_count, count),
                final(s)@.buckets[last].req_count,
            )
            &&& final(s)@.buckets[last].durations == there.buckets[last].durations
            &&& forall|i: int|
                0 <= i < last ==> #[trigger] final(s)@.buckets[i] == there.buckets[i]
            &&& final(s)@.workers_gauge == old(s)@.workers_gauge
        },
{
    match sample {
        Sample::DurationMs(ms) => law_duration_is_recorded(old(s)@, now_sec, ms),
        Sample::Requests(count) => law_requests_are_counted(
            old(s)@,
            now_sec,
            final(s)@.newest().req_count,
        ),
        _ => {},
    }
}

/// Whether a snapshot says of what a window shows at second `now` what there is to say: the total
/// of all its seconds, that of the last `short` seconds, over how many seconds each is, the 95th
/// percentile of all its durations, and the number of workers that was reported last.
pub open spec fn tells<N, A: Fn(N, N) -> N>(
    snap: Snapshot<N>,
    shown: StateView<N>,
    now: u64,
    short: u64,
    plus: A,
) -> bool {
    let all = shown.buckets;
    let seconds = if short == 0 {
        1
    } else {
        short as int
    };
    &&& adds_up(plus, shown.zero, Seq::new(all.len(), |i: int| all[i].req_count), snap.total)
    &&& exists|recent: Seq<N>| #[trigger]
        adds_up(plus, shown.zero, recent, snap.short_total) && {
            let n = recent.len();
            &&& n <= all.len()
            &&& forall|i: int|
                0 <= i < n ==> #[trigger] recent[i] == all[all.len() - 1 - i].req_count
            &&& n > 0 ==> all[all.len() - n].sec + seconds > now
            &&& n < all.len() ==> all[all.len() - 1 - n].sec + seconds <= now
        }
    &&& snap.window_seconds == if shown.window_seconds == 0 {
        1
    } else {
        shown.window_seconds
    }
    &&& snap.short_seconds == seconds
    &&& is_p95(all_durations(all), snap.p95_ms)
    &&& snap.workers_gauge == shown.workers_gauge
}

/// A snapshot tells of the window as it is at that second, and only brings it up to date.
pub proof fn law_snapshot_tells_of_the_window<N: Copy, A: Fn(N, N) -> N>(
    s: &mut State<N>,
    now_sec: u64,
    short: u64,
    plus: A,
    res: Result<Snapshot<N>, WindowError>,
)
    requires
        call_ensures(State::<N>::snapshot::<A>, (s, now_sec, short, plus), res),
        old(s).wf(),
    ensures
        final(s)@ == old(s)@.at(now_sec),
        res matches Ok(snap) && tells(snap, old(s)@.at(now_sec), now_sec, short, plus),
{
    law_shows_the_last_seconds(old(s)@, now_sec);
    law_snapshot_sums_up(old(s)@.at(now_sec), res->Ok_0, now_sec, short, plus);
}

/// A checked snapshot does the same, and fails exactly where the durations fill the counter.
pub proof fn law_checked_snapshot_tells_of_the_window<N: Copy, A: Fn(N, N) -> N>(
    s: &mut State<N>,
    now_sec: u64,
    short: u64,
    plus: A,
    res: Result<Snapshot<N>, WindowError>,
)
    requires
        call_ensures(State::<N>::checked_snapshot::<A>, (s, now_sec, short, plus), res),
        old(s).wf(),
    ensures
        final(s)@ == old(s)@.at(now_sec),
        res is Ok <==> all_durations(old(s)@.at(now_sec).buckets).len() < 0xffff_ffff_ffff_ffff,
        res matches Ok(snap) ==> tells(snap, old(s)@.at(now_sec), now_sec, short, plus),
{
    law_shows_the_last_seconds(old(s)@, now_sec);
    if let Ok(snap) = res {
        law_snapshot_sums_up(old(s)@.at(now_sec), snap, now_sec, short, plus);
    }
}

/// Where every request took the same time, from 1 to 2047 milliseconds, the percentile that a
/// snapshot reports is that time.
pub proof fn law_snapshot_reports_what_every_request_took<N: Copy, A: Fn(N, N) -> N>(
    s: &mut State<N>,
    now_sec: u64,
    short: u64,
    plus: A,
    res: Result<Snapshot<N>, WindowError>,
    ms: u64,
)
    requires
        call_ensures(State::<N>::snapshot::<A>, (s, now_sec, short, plus), res),
        old(s).wf(),
        1 <= ms < 2048,
        0 < all_durations(old(s)@.at(now_sec).buckets).len() <= MOST_RANKED,
        forall|v: u64| #[trigger]
            all_durations(old(s)@.at(now_sec).buckets).contains(v) ==> v == ms,
    ensures
        res matches Ok(snap) && snap.p95_ms == ms,
{
    law_equal_durations_are_reported(
        all_durations(old(s)@.at(now_sec).buckets),
        res->Ok_0.p95_ms,
        ms,
    );
}

} // verus!
