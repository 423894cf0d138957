//! The arguments that are handed on to Gunicorn.

use vstd::prelude::*;
use vstd::slice::slice_subrange;

use crate::config::Config;
use crate::number::{
    decimal, format_i32, format_u64, law_decimal_reads_back, number_within, parse_u64,
    signed_decimal,
};
use crate::text::{begins_with, chars_of, spells, string_of, views};

verus! {

/// Whether an argument sets an option that the autoscaler sets itself, with the value attached.
pub open spec fn sets_managed(arg: Seq<char>) -> bool {
    ||| "--workers="@.is_prefix_of(arg)
    ||| "--threads="@.is_prefix_of(arg)
    ||| "--worker-connections="@.is_prefix_of(arg)
    ||| "--statsd-host="@.is_prefix_of(arg)
    ||| "--statsd-prefix="@.is_prefix_of(arg)
    ||| "--pid="@.is_prefix_of(arg)
}

/// Whether an argument names an option that the autoscaler sets itself: its value follows as an
/// argument of its own.
pub open spec fn names_managed(arg: Seq<char>) -> bool {
    ||| arg == "--workers"@
    ||| arg == "-w"@
    ||| arg == "--threads"@
    ||| arg == "--worker-connections"@
    ||| arg == "--statsd-host"@
    ||| arg == "--statsd-prefix"@
    ||| arg == "--pid"@
}

/// The arguments without the options that the autoscaler sets itself, and without their values.
pub open spec fn stripped(args: Seq<Seq<char>>) -> Seq<Seq<char>>
    decreases args.len(),
{
    if args.len() == 0 {
        args
    } else if sets_managed(args[0]) {
        stripped(args.skip(1))
    } else if names_managed(args[0]) {
        if args.len() == 1 {
            Seq::empty()
        } else {
            stripped(args.skip(2))
        }
    } else {
        seq![args[0]] + stripped(args.skip(1))
    }
}

/// Tells whether an argument sets a managed option, with the value attached.
fn is_setting(arg: &str) -> (res: bool)
    ensures
        res == sets_managed(arg@),
{
    let owned = chars_of(arg);
    let a = owned.as_slice();
    begins_with(a, "--workers=") || begins_with(a, "--threads=") || begins_with(
        a,
        "--worker-connections=",
    ) || begins_with(a, "--statsd-host=") || begins_with(a, "--statsd-prefix=") || begins_with(
        a,
        "--pid=",
    )
}

/// Tells whether an argument names a managed option.
fn is_name(arg: &str) -> (res: bool)
    ensures
        res == names_managed(arg@),
{
    let owned = chars_of(arg);
    let a = owned.as_slice();
    spells(a, "--workers") || spells(a, "-w") || spells(a, "--threads") || spells(
        a,
        "--worker-connections",
    ) || spells(a, "--statsd-host") || spells(a, "--statsd-prefix") || spells(a, "--pid")
}

/// Drops the options that the autoscaler sets itself, and their values.
pub fn strip_managed_flags(args: Vec<String>) -> (res: Vec<String>)
    ensures
        views(res@) == stripped(views(args@)),
{
    let ghost all = views(args@);
    let mut out: Vec<String> = Vec::with_capacity(args.len());
    let mut i: usize = 0;
    assert(all.skip(0) =~= all);
    assert(views(out@) =~= Seq::<Seq<char>>::empty());
    assert(stripped(all) =~= views(out@) + stripped(all.skip(0)));
    while i < args.len()
        invariant
            i <= args@.len(),
            all == views(args@),
            stripped(all) == views(out@) + stripped(all.skip(i as int)),
        decreases args@.len() - i,
    {
        let a = &args[i];
        let ghost rest = all.skip(i as int);
        assert(rest[0] == a@);
        assert(rest.skip(1) =~= all.skip(i + 1));
        if is_setting(a.as_str()) {
            i += 1;
            continue;
        }
        if is_name(a.as_str()) {
            if i + 1 < args.len() {
                assert(rest.skip(2) =~= all.skip(i + 2));
                i += 2;
            } else {
                assert(all.skip(i + 1) =~= Seq::<Seq<char>>::empty());
                i += 1;
            }
            continue;
        }
        let ghost before = views(out@);
        out.push(a.clone());
        assert(views(out@) =~= before.push(a@));
        assert(stripped(all) =~= views(out@) + stripped(all.skip(i + 1)));
        i += 1;
    }
    assert(all.skip(i as int) =~= Seq::<Seq<char>>::empty());
    assert(stripped(all) =~= views(out@));
    out
}

/// Whether an argument names the option for the worker class.
pub open spec fn names_worker_class(arg: Seq<char>) -> bool {
    arg == "--worker-class"@ || arg == "-k"@
}

/// The worker class to use for one that was asked for.
pub open spec fn current_class(class: Seq<char>) -> Seq<char> {
    if class == "uvicorn.workers.UvicornWorker"@ {
        "uvicorn_worker.UvicornWorker"@
    } else {
        class
    }
}

/// The arguments, with the deprecated worker class replaced wherever it is the value of the
/// option for the worker class.
pub open spec fn mapped(args: Seq<Seq<char>>) -> Seq<Seq<char>>
    decreases args.len(),
{
    if args.len() == 0 {
        args
    } else if names_worker_class(args[0]) && args.len() > 1 {
        seq![args[0], current_class(args[1])] + mapped(args.skip(2))
    } else {
        seq![args[0]] + mapped(args.skip(1))
    }
}

/// Replaces the deprecated worker class, where that is enabled.
pub fn map_worker_class(args: Vec<String>, enabled: bool) -> (res: Vec<String>)
    ensures
        views(res@) == if enabled {
            mapped(views(args@))
        } else {
            views(args@)
        },
{
    if !enabled {
        return args;
    }
    let ghost all = views(args@);
    let mut out: Vec<String> = Vec::with_capacity(args.len());
    let mut i: usize = 0;
    assert(all.skip(0) =~= all);
    assert(views(out@) =~= Seq::<Seq<char>>::empty());
    assert(mapped(all) =~= views(out@) + mapped(all.skip(0)));
    while i < args.len()
        invariant
            i <= args@.len(),
            all == views(args@),
            mapped(all) == views(out@) + mapped(all.skip(i as int)),
        decreases args@.len() - i,
    {
        let a = &args[i];
        let ghost rest = all.skip(i as int);
        let ghost before = views(out@);
        assert(rest[0] == a@);
        let owned = chars_of(a.as_str());
        if (spells(owned.as_slice(), "--worker-class") || spells(owned.as_slice(), "-k")) && i + 1
            < args.len() {
            let mut wc = args[i + 1].clone();
            assert(rest[1] == wc@);
            assert(rest.skip(2) =~= all.skip(i + 2));
            let ghost asked = wc@;
            if spells(chars_of(wc.as_str()).as_slice(), "uvicorn.workers.UvicornWorker") {
                wc = "uvicorn_worker.UvicornWorker".to_owned();
            }
            assert(wc@ == current_class(asked));
            out.push(a.clone());
            out.push(wc);
            assert(views(out@) =~= before + seq![a@, wc@]);
            assert(mapped(all) =~= views(out@) + mapped(all.skip(i + 2)));
            i += 2;
            continue;
        }
        out.push(a.clone());
        assert(rest.skip(1) =~= all.skip(i + 1));
        assert(views(out@) =~= before.push(a@));
        assert(mapped(all) =~= views(out@) + mapped(all.skip(i + 1)));
        i += 1;
    }
    assert(all.skip(i as int) =~= Seq::<Seq<char>>::empty());
    assert(mapped(all) =~= views(out@));
    out
}

/// Whether an argument is an option: its name, alone or with a value attached.
pub open spec fn is_flag(arg: Seq<char>, flag: Seq<char>) -> bool {
    arg == flag || (flag + "="@).is_prefix_of(arg)
}

/// Whether an option is among the arguments.
pub open spec fn flag_given(args: Seq<Seq<char>>, flag: Seq<char>) -> bool {
    exists|i: int| 0 <= i < args.len() && is_flag(#[trigger] args[i], flag)
}

/// Tells whether an option is among the arguments.
pub fn has_flag(args: &[String], flag: &str) -> (res: bool)
    ensures
        res == flag_given(views(args@), flag@),
{
    let ghost all = views(args@);
    let mut attached = flag.to_owned();
    attached.append("=");
    let mut i: usize = 0;
    while i < args.len()
        invariant
            i <= args@.len(),
            all == views(args@),
            attached@ == flag@ + "="@,
            forall|j: int| 0 <= j < i ==> !is_flag(#[trigger] all[j], flag@),
        decreases args@.len() - i,
    {
        let owned = chars_of(args[i].as_str());
        assert(owned@ == all[i as int]);
        if spells(owned.as_slice(), flag) || begins_with(owned.as_slice(), attached.as_str()) {
            assert(is_flag(all[i as int], flag@));
            return true;
        }
        i += 1;
    }
    false
}

/// The value of the first timeout among the arguments, if it is a number. A timeout option that
/// is the last argument has no value and does not count.
pub open spec fn timeout_in(args: Seq<Seq<char>>) -> Option<int>
    decreases args.len(),
{
    if args.len() == 0 {
        None
    } else if (args[0] == "--timeout"@ || args[0] == "-t"@) && args.len() > 1 {
        number_within(args[1], 0, u64::MAX as int)
    } else if "--timeout="@.is_prefix_of(args[0]) {
        number_within(args[0].skip("--timeout="@.len() as int), 0, u64::MAX as int)
    } else {
        timeout_in(args.skip(1))
    }
}

/// Reads the timeout among the arguments.
pub fn extract_timeout(args: &[String]) -> (res: Option<u64>)
    ensures
        match res {
            Some(t) => timeout_in(views(args@)) == Some(t as int),
            None => timeout_in(views(args@)) is None,
        },
{
    let ghost all = views(args@);
    let mut i: usize = 0;
    assert(all.skip(0) =~= all);
    while i < args.len()
        invariant
            i <= args@.len(),
            all == views(args@),
            timeout_in(all) == timeout_in(all.skip(i as int)),
        decreases args@.len() - i,
    {
        let ghost rest = all.skip(i as int);
        let owned = chars_of(args[i].as_str());
        let a = owned.as_slice();
        assert(a@ == rest[0]);
        if spells(a, "--timeout") || spells(a, "-t") {
            if i + 1 < args.len() {
                assert(rest[1] == args@[i + 1]@);
                return parse_u64(args[i + 1].as_str());
            }
        }
        if begins_with(a, "--timeout=") {
            proof {
                reveal_strlit("--timeout=");
            }
            let value = string_of(slice_subrange(a, 10, a.len()));
            assert(value@ =~= rest[0].skip("--timeout="@.len() as int));
            return parse_u64(value.as_str());
        }
        assert(rest.skip(1) =~= all.skip(i + 1));
        i += 1;
    }
    None
}

/// The arguments, with a graceful timeout added that equals the timeout: where that is enabled,
/// none is given yet, and a timeout is given.
pub open spec fn with_graceful(args: Seq<Seq<char>>, enabled: bool) -> Seq<Seq<char>> {
    if enabled && !flag_given(args, "--graceful-timeout"@) && timeout_in(args) is Some {
        args + seq![
            "--graceful-timeout"@,
            decimal(timeout_in(args)->Some_0 as nat),
        ]
    } else {
        args
    }
}

/// Adds a graceful timeout, so that removing a worker does not cut off requests sooner than the
/// timeout would.
pub fn maybe_add_graceful_timeout(args: Vec<String>, cfg: &Config) -> (res: Vec<String>)
    ensures
        views(res@) == with_graceful(
            views(args@),
            cfg.auto_set_graceful_timeout,
        ),
{
    let mut args = args;
    if !cfg.auto_set_graceful_timeout {
        return args;
    }
    if has_flag(args.as_slice(), "--graceful-timeout") {
        return args;
    }
    if let Some(t) = extract_timeout(args.as_slice()) {
        let ghost before = views(args@);
        let value = format_u64(t);
        args.push("--graceful-timeout".to_owned());
        args.push(value);
        assert(views(args@) =~= before + seq!["--graceful-timeout"@, value@]);
    }
    args
}

/// The arguments as they are handed on.
pub open spec fn prepared(args: Seq<Seq<char>>, cfg: Config) -> Seq<Seq<char>> {
    with_graceful(
        if cfg.map_uvicorn_deprecated {
            mapped(stripped(args))
        } else {
            stripped(args)
        },
        cfg.auto_set_graceful_timeout,
    )
}

/// A command line without the name of an application.
#[derive(Debug, PartialEq, Eq, Structural, Clone, Copy)]
pub struct UsageError;

/// What a command line asks for: the application, and the arguments to hand on.
pub struct Launch {
    /// The application that Gunicorn serves.
    pub app: String,
    /// The arguments that are handed on to Gunicorn.
    pub args: Vec<String>,
}

/// Reads a command line: the program's name, the application, and arguments to hand on.
pub fn read_command_line(argv: &Vec<String>, cfg: &Config) -> (res: Result<Launch, UsageError>)
    ensures
        match res {
            Ok(launch) => argv@.len() >= 2 && launch.app@ == argv@[1]@ && views(launch.args@)
                == prepared(views(argv@).skip(2), *cfg),
            Err(_) => argv@.len() < 2,
        },
{
    if argv.len() < 2 {
        return Err(UsageError);
    }
    let app = argv[1].clone();
    let mut passed: Vec<String> = Vec::new();
    let mut i: usize = 2;
    assert(views(passed@) =~= views(argv@).subrange(2, 2));
    while i < argv.len()
        invariant
            2 <= i <= argv@.len(),
            views(passed@) == views(argv@).subrange(2, i as int),
        decreases argv@.len() - i,
    {
        let ghost before = views(passed@);
        passed.push(argv[i].clone());
        assert(views(passed@) =~= before.push(argv@[i as int]@));
        assert(views(passed@) =~= views(argv@).subrange(2, i + 1));
        i += 1;
    }
    assert(views(passed@) =~= views(argv@).skip(2));
    let passed = strip_managed_flags(passed);
    let passed = map_worker_class(passed, cfg.map_uvicorn_deprecated);
    let args = maybe_add_graceful_timeout(passed, cfg);
    Ok(Launch { app, args })
}

/// The arguments with which Gunicorn is started.
pub open spec fn started_with(
    app: Seq<char>,
    args: Seq<Seq<char>>,
    pidfile: Seq<char>,
    cfg: Config,
) -> Seq<Seq<char>> {
    seq![
        app,
        "--pid"@,
        pidfile,
        "--workers"@,
        signed_decimal(cfg.min_workers as int),
        "--statsd-host"@,
        cfg.statsd_addr@,
        "--statsd-prefix"@,
        cfg.statsd_prefix@,
    ] + args
}

/// Puts together the arguments with which Gunicorn is started.
pub fn gunicorn_args(app: &str, args: &[String], pidfile: &str, cfg: &Config) -> (res: Vec<String>)
    ensures
        views(res@) == started_with(app@, views(args@), pidfile@, *cfg),
{
    let mut out: Vec<String> = Vec::new();
    out.push(app.to_owned());
    out.push("--pid".to_owned());
    out.push(pidfile.to_owned());
    out.push("--workers".to_owned());
    out.push(format_i32(cfg.min_workers));
    out.push("--statsd-host".to_owned());
    out.push(cfg.statsd_addr.clone());
    out.push("--statsd-prefix".to_owned());
    out.push(cfg.statsd_prefix.clone());
    let ghost own = views(out@);
    assert(views(out@) =~= own + views(args@).take(0));
    let mut i: usize = 0;
    while i < args.len()
        invariant
            i <= args@.len(),
            views(out@) == own + views(args@).take(i as int),
        decreases args@.len() - i,
    {
        let ghost before = views(out@);
        out.push(args[i].clone());
        assert(views(out@) =~= before.push(args@[i as int]@));
        assert(views(out@) =~= own + views(args@).take(i + 1));
        i += 1;
    }
    assert(views(args@).take(i as int) =~= views(args@));
    assert(views(out@) =~= started_with(app@, views(args@), pidfile@, *cfg));
    out
}

/// Whether an argument belongs to an option that the autoscaler sets itself.
pub open spec fn managed(arg: Seq<char>) -> bool {
    sets_managed(arg) || names_managed(arg)
}

/// Whether no argument belongs to an option that the autoscaler sets itself.
pub open spec fn unmanaged(args: Seq<Seq<char>>) -> bool {
    forall|i: int| 0 <= i < args.len() ==> !managed(#[trigger] args[i])
}

/// How managed options are spelt.
proof fn lemma_managed_spelling(arg: Seq<char>)
    requires
        managed(arg),
    ensures
        arg.len() >= 2,
        arg[0] == '-',
        arg.len() > 2 ==> arg[2] != 'g',
{
    reveal_strlit("--workers=");
    reveal_strlit("--threads=");
    reveal_strlit("--worker-connections=");
    reveal_strlit("--statsd-host=");
    reveal_strlit("--statsd-prefix=");
    reveal_strlit("--pid=");
    reveal_strlit("--workers");
    reveal_strlit("-w");
    reveal_strlit("--threads");
    reveal_strlit("--worker-connections");
    reveal_strlit("--statsd-host");
    reveal_strlit("--statsd-prefix");
    reveal_strlit("--pid");
    if sets_managed(arg) {
        let p = if "--workers="@.is_prefix_of(arg) {
            "--workers="@
        } else if "--threads="@.is_prefix_of(arg) {
            "--threads="@
        } else if "--worker-connections="@.is_prefix_of(arg) {
            "--worker-connections="@
        } else if "--statsd-host="@.is_prefix_of(arg) {
            "--statsd-host="@
        } else if "--statsd-prefix="@.is_prefix_of(arg) {
            "--statsd-prefix="@
        } else {
            "--pid="@
        };
        assert(p.is_prefix_of(arg) && p.len() > 2);
        assert(arg[0] == p[0] && arg[2] == p[2]);
    }
}

/// Stripping leaves no option that the autoscaler sets itself.
pub proof fn law_stripped_is_unmanaged(args: Seq<Seq<char>>)
    ensures
        unmanaged(stripped(args)),
    decreases args.len(),
{
    if args.len() > 0 {
        law_stripped_is_unmanaged(args.skip(1));
        if args.len() > 1 {
            law_stripped_is_unmanaged(args.skip(2));
        }
        if !managed(args[0]) {
            let rest = stripped(args.skip(1));
            assert forall|i: int| 0 <= i < stripped(args).len() implies !managed(
                #[trigger] stripped(args)[i],
            ) by {
                if i > 0 {
                    assert(stripped(args)[i] == rest[i - 1]);
                }
            }
        }
    }
}

/// Arguments without managed options are handed on as they are.
pub proof fn law_unmanaged_stays(args: Seq<Seq<char>>)
    requires
        unmanaged(args),
    ensures
        stripped(args) == args,
    decreases args.len(),
{
    if args.len() > 0 {
        let rest = args.skip(1);
        assert forall|i: int| 0 <= i < rest.len() implies !managed(#[trigger] rest[i]) by {
            assert(rest[i] == args[i + 1]);
        }
        law_unmanaged_stays(rest);
        assert(!managed(args[0]));
        assert(seq![args[0]] + rest =~= args);
    }
}

/// Stripping twice is stripping once.
pub proof fn law_stripping_twice(args: Seq<Seq<char>>)
    ensures
        stripped(stripped(args)) == stripped(args),
{
    law_stripped_is_unmanaged(args);
    law_unmanaged_stays(stripped(args));
}

/// Replacing the worker class changes no argument but a deprecated worker class, and leaves
/// nothing to replace.
pub proof fn law_mapping_the_class(args: Seq<Seq<char>>)
    ensures
        mapped(args).len() == args.len(),
        forall|i: int|
            0 <= i < args.len() ==> (#[trigger] mapped(args)[i] == args[i] || (i > 0
                && names_worker_class(args[i - 1]) && mapped(args)[i] == current_class(args[i]))),
        mapped(mapped(args)) == mapped(args),
    decreases args.len(),
{
    if args.len() > 0 {
        let m = mapped(args);
        if names_worker_class(args[0]) && args.len() > 1 {
            let rest = args.skip(2);
            law_mapping_the_class(rest);
            assert forall|i: int| 0 <= i < args.len() implies (#[trigger] m[i] == args[i] || (i > 0
                && names_worker_class(args[i - 1]) && m[i] == current_class(args[i]))) by {
                if i >= 2 {
                    assert(m[i] == mapped(rest)[i - 2]);
                    assert(args[i] == rest[i - 2]);
                    if i > 2 {
                        assert(args[i - 1] == rest[i - 3]);
                    }
                }
            }
            assert(m.skip(2) =~= mapped(rest));
            assert(current_class(current_class(args[1])) == current_class(args[1])) by {
                reveal_strlit("uvicorn.workers.UvicornWorker");
                reveal_strlit("uvicorn_worker.UvicornWorker");
                assert("uvicorn.workers.UvicornWorker"@.len()
                    != "uvicorn_worker.UvicornWorker"@.len());
            }
            assert(mapped(m) =~= m);
        } else {
            let rest = args.skip(1);
            law_mapping_the_class(rest);
            assert forall|i: int| 0 <= i < args.len() implies (#[trigger] m[i] == args[i] || (i > 0
                && names_worker_class(args[i - 1]) && m[i] == current_class(args[i]))) by {
                if i >= 1 {
                    assert(m[i] == mapped(rest)[i - 1]);
                    assert(args[i] == rest[i - 1]);
                    if i > 1 {
                        assert(args[i - 1] == rest[i - 2]);
                    }
                }
            }
            assert(m.skip(1) =~= mapped(rest));
            assert(mapped(m) =~= m);
        }
    }
}

/// A graceful timeout is added at most once.
pub proof fn law_graceful_once(args: Seq<Seq<char>>, enabled: bool)
    ensures
        with_graceful(with_graceful(args, enabled), enabled) == with_graceful(args, enabled),
{
    let w = with_graceful(args, enabled);
    if w != args {
        assert(w[args.len() as int] == "--graceful-timeout"@);
        assert(is_flag(w[args.len() as int], "--graceful-timeout"@));
    }
}

/// None of the arguments that are handed on sets an option that the autoscaler sets itself, so
/// that those after the autoscaler's own cannot override them.
pub proof fn law_prepared_is_unmanaged(args: Seq<Seq<char>>, cfg: Config)
    ensures
        unmanaged(prepared(args, cfg)),
{
    let s = stripped(args);
    law_stripped_is_unmanaged(args);
    law_mapping_the_class(s);
    let m = if cfg.map_uvicorn_deprecated {
        mapped(s)
    } else {
        s
    };
    assert forall|i: int| 0 <= i < m.len() implies !managed(#[trigger] m[i]) by {
        assert(!managed(s[i]));
        if managed(m[i]) {
            lemma_managed_spelling(m[i]);
            reveal_strlit("uvicorn_worker.UvicornWorker");
        }
    }
    let w = prepared(args, cfg);
    if w != m {
        let t = timeout_in(m)->Some_0 as nat;
        assert forall|i: int| 0 <= i < w.len() implies !managed(#[trigger] w[i]) by {
            if i < m.len() {
                assert(w[i] == m[i]);
            } else if managed(w[i]) {
                lemma_managed_spelling(w[i]);
                law_decimal_reads_back(t);
                reveal_strlit("--graceful-timeout");
            }
        }
    }
}

/// Of the arguments with which Gunicorn is started, only those that the autoscaler puts in front
/// set options that it sets itself.
pub proof fn law_own_settings_hold(
    app: Seq<char>,
    args: Seq<Seq<char>>,
    pidfile: Seq<char>,
    cfg: Config,
)
    ensures
        ({
            let all = started_with(app, prepared(args, cfg), pidfile, cfg);
            &&& all[1] == "--pid"@ && all[2] == pidfile
            &&& all[3] == "--workers"@ && all[4] == signed_decimal(cfg.min_workers as int)
            &&& all[5] == "--statsd-host"@ && all[6] == cfg.statsd_addr@
            &&& all[7] == "--statsd-prefix"@ && all[8] == cfg.statsd_prefix@
            &&& forall|i: int| 9 <= i < all.len() ==> !managed(#[trigger] all[i])
        }),
{
    law_prepared_is_unmanaged(args, cfg);
    let all = started_with(app, prepared(args, cfg), pidfile, cfg);
    assert forall|i: int| 9 <= i < all.len() implies !managed(#[trigger] all[i]) by {
        assert(all[i] == prepared(args, cfg)[i - 9]);
    }
}

/// Each managed option takes the argument after it along, whatever that is; one at the end goes
/// alone.
pub proof fn law_managed_option_goes_with_its_value(
    name: Seq<char>,
    value: Seq<char>,
    rest: Seq<Seq<char>>,
)
    requires
        seq![
            "--workers"@,
            "-w"@,
            "--threads"@,
            "--worker-connections"@,
            "--statsd-host"@,
            "--statsd-prefix"@,
            "--pid"@,
        ].contains(name),
    ensures
        stripped(seq![name, value] + rest) == stripped(rest),
        stripped(seq![name]) == Seq::<Seq<char>>::empty(),
{
    lemma_names_are_no_settings(name);
    let args = seq![name, value] + rest;
    assert(args[0] == name);
    assert(args.skip(2) =~= rest);
}

/// The names of managed options, alone, have no value attached.
proof fn lemma_names_are_no_settings(name: Seq<char>)
    requires
        seq![
            "--workers"@,
            "-w"@,
            "--threads"@,
            "--worker-connections"@,
            "--statsd-host"@,
            "--statsd-prefix"@,
            "--pid"@,
        ].contains(name),
    ensures
        names_managed(name),
        !sets_managed(name),
{
    reveal_strlit("--workers=");
    reveal_strlit("--threads=");
    reveal_strlit("--worker-connections=");
    reveal_strlit("--statsd-host=");
    reveal_strlit("--statsd-prefix=");
    reveal_strlit("--pid=");
    reveal_strlit("--workers");
    reveal_strlit("-w");
    reveal_strlit("--threads");
    reveal_strlit("--worker-connections");
    reveal_strlit("--statsd-host");
    reveal_strlit("--statsd-prefix");
    reveal_strlit("--pid");
    let set = if "--workers="@.is_prefix_of(name) {
        "--workers="@
    } else if "--threads="@.is_prefix_of(name) {
        "--threads="@
    } else if "--worker-connections="@.is_prefix_of(name) {
        "--worker-connections="@
    } else if "--statsd-host="@.is_prefix_of(name) {
        "--statsd-host="@
    } else if "--statsd-prefix="@.is_prefix_of(name) {
        "--statsd-prefix="@
    } else {
        "--pid="@
    };
    if sets_managed(name) {
        assert(set.is_prefix_of(name));
        assert(set[set.len() - 1] == '=');
        assert(name[set.len() - 1] == set[set.len() - 1]);
    }
}

/// A managed option with its value attached goes alone.
pub proof fn law_managed_setting_goes_alone(
    name: Seq<char>,
    value: Seq<char>,
    rest: Seq<Seq<char>>,
)
    requires
        seq![
            "--workers"@,
            "--threads"@,
            "--worker-connections"@,
            "--statsd-host"@,
            "--statsd-prefix"@,
            "--pid"@,
        ].contains(name),
    ensures
        stripped(seq![name + seq!['='] + value] + rest) == stripped(rest),
{
    reveal_strlit("--workers=");
    reveal_strlit("--threads=");
    reveal_strlit("--worker-connections=");
    reveal_strlit("--statsd-host=");
    reveal_strlit("--statsd-prefix=");
    reveal_strlit("--pid=");
    reveal_strlit("--workers");
    reveal_strlit("--threads");
    reveal_strlit("--worker-connections");
    reveal_strlit("--statsd-host");
    reveal_strlit("--statsd-prefix");
    reveal_strlit("--pid");
    let arg = name + seq!['='] + value;
    let set = name + seq!['='];
    assert(arg.subrange(0, set.len() as int) =~= set);
    assert(set =~= "--workers="@ || set =~= "--threads="@ || set =~= "--worker-connections="@ || set
        =~= "--statsd-host="@ || set =~= "--statsd-prefix="@ || set =~= "--pid="@);
    assert(sets_managed(arg));
    let args = seq![arg] + rest;
    assert(args[0] == arg);
    assert(args.skip(1) =~= rest);
}

/// Any other argument is handed on, and takes nothing along: neither one of the names of managed
/// options, nor what begins with one of them and an equals sign.
pub proof fn law_other_argument_stays(arg: Seq<char>, rest: Seq<Seq<char>>)
    requires
        !seq![
            "--workers"@,
            "-w"@,
            "--threads"@,
            "--worker-connections"@,
            "--statsd-host"@,
            "--statsd-prefix"@,
            "--pid"@,
        ].contains(arg),
        !("--workers"@ + seq!['=']).is_prefix_of(arg),
        !("--threads"@ + seq!['=']).is_prefix_of(arg),
        !("--worker-connections"@ + seq!['=']).is_prefix_of(arg),
        !("--statsd-host"@ + seq!['=']).is_prefix_of(arg),
        !("--statsd-prefix"@ + seq!['=']).is_prefix_of(arg),
        !("--pid"@ + seq!['=']).is_prefix_of(arg),
    ensures
        stripped(seq![arg] + rest) == seq![arg] + stripped(rest),
        stripped(Seq::<Seq<char>>::empty()) == Seq::<Seq<char>>::empty(),
{
    reveal_strlit("--workers=");
    reveal_strlit("--threads=");
    reveal_strlit("--worker-connections=");
    reveal_strlit("--statsd-host=");
    reveal_strlit("--statsd-prefix=");
    reveal_strlit("--pid=");
    reveal_strlit("--workers");
    reveal_strlit("--threads");
    reveal_strlit("--worker-connections");
    reveal_strlit("--statsd-host");
    reveal_strlit("--statsd-prefix");
    reveal_strlit("--pid");
    assert("--workers"@ + seq!['='] =~= "--workers="@);
    assert("--threads"@ + seq!['='] =~= "--threads="@);
    assert("--worker-connections"@ + seq!['='] =~= "--worker-connections="@);
    assert("--statsd-host"@ + seq!['='] =~= "--statsd-host="@);
    assert("--statsd-prefix"@ + seq!['='] =~= "--statsd-prefix="@);
    assert("--pid"@ + seq!['='] =~= "--pid="@);
    let names = seq![
        "--workers"@,
        "-w"@,
        "--threads"@,
        "--worker-connections"@,
        "--statsd-host"@,
        "--statsd-prefix"@,
        "--pid"@,
    ];
    assert(!names_managed(arg)) by {
        assert(names[0] == "--workers"@ && names[1] == "-w"@ && names[2] == "--threads"@ && names[3]
            == "--worker-connections"@ && names[4] == "--statsd-host"@ && names[5]
            == "--statsd-prefix"@ && names[6] == "--pid"@);
    }
    let args = seq![arg] + rest;
    assert(args[0] == arg);
    assert(args.skip(1) =~= rest);
}

/// Where the worker class is asked for, the deprecated class of Uvicorn becomes the current one,
/// and any other class stays as it is.
pub proof fn law_class_is_replaced(flag: Seq<char>, class: Seq<char>, rest: Seq<Seq<char>>)
    requires
        flag == "--worker-class"@ || flag == "-k"@,
    ensures
        mapped(seq![flag, "uvicorn.workers.UvicornWorker"@] + rest) == seq![
            flag,
            "uvicorn_worker.UvicornWorker"@,
        ] + mapped(rest),
        class != "uvicorn.workers.UvicornWorker"@ ==> mapped(seq![flag, class] + rest) == seq![
            flag,
            class,
        ] + mapped(rest),
        mapped(seq![flag]) == seq![flag],
{
    let old_class = "uvicorn.workers.UvicornWorker"@;
    let (a, b, one) = (seq![flag, old_class] + rest, seq![flag, class] + rest, seq![flag]);
    assert(a[0] == flag && a[1] == old_class && a.skip(2) =~= rest);
    assert(b[0] == flag && b[1] == class && b.skip(2) =~= rest);
    let none = Seq::<Seq<char>>::empty();
    assert(one.skip(1) =~= none);
    assert(mapped(none) == none);
    assert(mapped(one) =~= one);
}

/// Arguments that do not ask for a worker class stay as they are, deprecated class or not.
pub proof fn law_other_arguments_keep_their_class(arg: Seq<char>, rest: Seq<Seq<char>>)
    requires
        arg != "--worker-class"@,
        arg != "-k"@,
    ensures
        mapped(seq![arg] + rest) == seq![arg] + mapped(rest),
        mapped(Seq::<Seq<char>>::empty()) == Seq::<Seq<char>>::empty(),
{
    let args = seq![arg] + rest;
    assert(args[0] == arg && args.skip(1) =~= rest);
}

/// An option is given exactly where an argument is its name, or its name with an equals sign and
/// any value attached.
pub proof fn law_option_is_given(
    args: Seq<Seq<char>>,
    flag: Seq<char>,
    i: int,
    value: Seq<char>,
)
    requires
        0 <= i < args.len(),
    ensures
        args[i] == flag ==> flag_given(args, flag),
        args[i] == flag + seq!['='] + value ==> flag_given(args, flag),
        flag_given(args, flag) ==> exists|j: int|
            0 <= j < args.len() && (#[trigger] args[j] == flag || (args[j].len() > flag.len()
                && args[j].subrange(0, flag.len() as int) == flag && args[j][flag.len() as int]
                == '=')),
        flag_given(args, flag) ==> args.len() > 0,
{
    reveal_strlit("=");
    let attached = flag + "="@;
    if args[i] == flag {
        assert(is_flag(args[i], flag));
    }
    if args[i] == flag + seq!['='] + value {
        assert(args[i].subrange(0, attached.len() as int) =~= attached);
        assert(is_flag(args[i], flag));
    }
    if flag_given(args, flag) {
        let j = choose|j: int| 0 <= j < args.len() && is_flag(#[trigger] args[j], flag);
        if args[j] != flag {
            assert(attached.is_prefix_of(args[j]));
            assert(args[j].subrange(0, attached.len() as int) == attached);
            assert(args[j].subrange(0, flag.len() as int) =~= flag) by {
                assert forall|k: int| 0 <= k < flag.len() implies args[j][k] == flag[k] by {
                    assert(args[j].subrange(0, attached.len() as int)[k] == attached[k]);
                }
            }
            assert(args[j][flag.len() as int] == attached[flag.len() as int]);
        }
    }
}

/// The first timeout among the arguments counts, whether its value follows or is attached; other
/// arguments, and a timeout without a value, are passed over.
pub proof fn law_first_timeout_counts(
    flag: Seq<char>,
    value: Seq<char>,
    other: Seq<char>,
    rest: Seq<Seq<char>>,
)
    requires
        flag == "--timeout"@ || flag == "-t"@,
        other != "--timeout"@,
        other != "-t"@,
        !("--timeout"@ + seq!['=']).is_prefix_of(other),
    ensures
        timeout_in(seq![flag, value] + rest) == number_within(value, 0, 0xffff_ffff_ffff_ffff),
        timeout_in(seq!["--timeout"@ + seq!['='] + value] + rest) == number_within(
            value,
            0,
            0xffff_ffff_ffff_ffff,
        ),
        timeout_in(seq![other] + rest) == timeout_in(rest),
        timeout_in(seq![flag]) is None,
        timeout_in(Seq::<Seq<char>>::empty()) is None,
{
    reveal_strlit("--timeout");
    reveal_strlit("--timeout=");
    reveal_strlit("-t");
    let set = "--timeout="@;
    let arg = "--timeout"@ + seq!['='] + value;
    assert("--timeout"@ + seq!['='] =~= set);
    let (a, b, c) = (seq![flag, value] + rest, seq![arg] + rest, seq![other] + rest);
    assert(a[0] == flag && a[1] == value);
    assert(b[0] == arg);
    assert(arg.len() > 9 && arg[9] == '=');
    assert(arg != "--timeout"@ && arg != "-t"@);
    assert(arg.subrange(0, set.len() as int) =~= set);
    assert(arg.skip(set.len() as int) =~= value);
    assert(c[0] == other && c.skip(1) =~= rest);
    let one = seq![flag];
    assert(one.skip(1) =~= Seq::<Seq<char>>::empty());
    assert(!set.is_prefix_of(flag));
}

/// A graceful timeout is added at the end, equal to the timeout, exactly where that is wanted, none
/// is given, and there is a timeout; otherwise the arguments stay as they are.
pub proof fn law_graceful_timeout_equals_the_timeout(args: Seq<Seq<char>>, enabled: bool)
    ensures
        !enabled || flag_given(args, "--graceful-timeout"@) || timeout_in(args) is None
            ==> with_graceful(args, enabled) == args,
        enabled && !flag_given(args, "--graceful-timeout"@) ==> (timeout_in(args) matches Some(t)
            ==> with_graceful(args, enabled) == args.push("--graceful-timeout"@).push(
            decimal(t as nat),
        )),
{
    if timeout_in(args) is Some {
        assert(args + seq!["--graceful-timeout"@, decimal(timeout_in(args)->Some_0 as nat)]
            =~= args.push("--graceful-timeout"@).push(decimal(timeout_in(args)->Some_0 as nat)));
    }
}

/// What is handed on is what is left of the arguments after stripping, with the worker class
/// replaced and the graceful timeout added, each exactly where its switch is on.
pub proof fn law_switches_decide_what_is_handed_on(args: Seq<Seq<char>>, cfg: Config)
    ensures
        !cfg.map_uvicorn_deprecated && !cfg.auto_set_graceful_timeout ==> prepared(args, cfg)
            == stripped(args),
        cfg.map_uvicorn_deprecated && !cfg.auto_set_graceful_timeout ==> prepared(args, cfg)
            == mapped(stripped(args)),
        !cfg.map_uvicorn_deprecated && cfg.auto_set_graceful_timeout ==> prepared(args, cfg)
            == with_graceful(stripped(args), true),
        cfg.map_uvicorn_deprecated && cfg.auto_set_graceful_timeout ==> prepared(args, cfg)
            == with_graceful(mapped(stripped(args)), true),
{
}

/// Gunicorn is started with the application first, then the four own settings, then the arguments
/// that are handed on, as they are.
pub proof fn law_started_with_own_settings_first(
    app: Seq<char>,
    args: Seq<Seq<char>>,
    pidfile: Seq<char>,
    cfg: Config,
)
    ensures
        started_with(app, args, pidfile, cfg).len() == args.len() + 9,
        started_with(app, args, pidfile, cfg)[0] == app,
        started_with(app, args, pidfile, cfg)[1] == "--pid"@,
        started_with(app, args, pidfile, cfg)[2] == pidfile,
        started_with(app, args, pidfile, cfg)[3] == "--workers"@,
        started_with(app, args, pidfile, cfg)[4] == signed_decimal(cfg.min_workers as int),
        started_with(app, args, pidfile, cfg)[5] == "--statsd-host"@,
        started_with(app, args, pidfile, cfg)[6] == cfg.statsd_addr@,
        started_with(app, args, pidfile, cfg)[7] == "--statsd-prefix"@,
        started_with(app, args, pidfile, cfg)[8] == cfg.statsd_prefix@,
        forall|i: int|
            0 <= i < args.len() ==> started_with(app, args, pidfile, cfg)[i + 9]
                == #[trigger] args[i],
{
}

} // verus!
