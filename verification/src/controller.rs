//! The controller: how many workers there should be, and when to add or remove one.
//!
//! A tick is a series of steps. Each step looks at the clock and either asks for a signal to be
//! sent, or passes on to the next phase; the last one asks for a rest.

use vstd::prelude::*;

use crate::config::Config;

verus! {

/// Nanoseconds in a millisecond.
pub const NS_PER_MS: i128 = 1_000_000;

/// Nanoseconds in a second.
pub const NS_PER_SEC: i128 = 1_000_000_000;

/// How many ticks in a row must ask for fewer workers before one is removed.
pub const DOWN_TICKS: u32 = 3;

/// What is known about the load at a tick. `F` is the type of a request rate.
pub struct Observation<F> {
    /// The number of workers that was reported last.
    pub workers_gauge: Option<i32>,
    /// The request rate of the last seconds.
    pub short_rps: F,
    /// Whether that rate is high.
    pub high: bool,
    /// Whether that rate is much higher than at the tick before.
    pub risen: bool,
    /// Whether there are practically no requests.
    pub idle: bool,
    /// How many workers the load keeps busy.
    pub demand: i32,
    /// Whether there are more than a few requests.
    pub active: bool,
    /// Whether requests take longer than they should.
    pub slow: bool,
    /// Whether requests take no longer than they should.
    pub within_slo: bool,
}

impl<F> Observation<F> {
    /// Whether the request rate has surged.
    pub open spec fn surge(self) -> bool {
        self.high && self.risen
    }

    /// Whether the server is overloaded.
    pub open spec fn overloaded(self) -> bool {
        self.active && self.slow
    }
}

/// What the controller asks for.
#[derive(Debug, PartialEq, Eq, Structural, Clone, Copy)]
pub enum Action {
    /// Signal that a worker be added.
    AddWorker,
    /// Signal that a worker be removed.
    RemoveWorker,
    /// Nothing: take the next step.
    Proceed,
    /// Rest until the next tick.
    Sleep,
}

/// Where in a tick the controller is.
#[derive(Debug, PartialEq, Eq, Structural, Clone, Copy)]
pub enum Phase {
    /// At its beginning.
    Start,
    /// Adding workers because of a surge.
    Bursting { left: i32 },
    /// About to look whether the server is idle.
    Idle,
    /// A worker of an idle server was removed.
    Idled,
    /// About to decide how many workers there should be.
    Scale,
    /// Adding workers because there should be more.
    Scaling { left: i32, desired: i32 },
    /// About to look whether there should be fewer.
    Shrink { desired: i32 },
    /// A worker was removed because there should be fewer.
    Shrunk,
    /// At its end.
    Rest,
}

/// The state of the controller. Times are in nanoseconds.
pub struct Controller<F> {
    /// How many workers there are.
    pub current_workers: i32,
    /// When workers were added last.
    pub last_up: i128,
    /// When a worker was removed last.
    pub last_down: i128,
    /// When a surge was heeded last.
    pub last_burst: i128,
    /// Since when the server is idle.
    pub idle_since: i128,
    /// How many ticks in a row asked for fewer workers.
    pub down_streak: u32,
    /// The request rate of the last seconds, at the tick before.
    pub prev_short_rps: F,
    /// Where in a tick the controller is.
    pub phase: Phase,
}

/// How much time has passed since a moment.
pub open spec fn elapsed(since: i128, now: u64) -> int {
    if now < since {
        0
    } else {
        now - since
    }
}

/// Whether so many milliseconds have passed since a moment.
pub open spec fn passed_ms(since: i128, now: u64, ms: u64) -> bool {
    elapsed(since, now) >= ms * NS_PER_MS
}

/// Whether so many seconds have passed since a moment.
pub open spec fn passed_secs(since: i128, now: u64, secs: u64) -> bool {
    elapsed(since, now) >= secs * NS_PER_SEC
}

/// The smaller of two numbers.
pub open spec fn smaller(a: int, b: int) -> int {
    if a <= b {
        a
    } else {
        b
    }
}

/// The greater of two numbers.
pub open spec fn greater(a: int, b: int) -> int {
    if a >= b {
        a
    } else {
        b
    }
}

/// How many workers there should be: as many as the load keeps busy, and more than there are
/// where the server is overloaded, within the limits that are set.
pub open spec fn decided(demand: int, overloaded: bool, current_workers: int, cfg: Config) -> int {
    let wanted = if overloaded {
        greater(demand, current_workers + 1)
    } else {
        demand
    };
    greater(cfg.min_workers as int, smaller(wanted, cfg.max_workers as int))
}

/// Decides how many workers there should be.
pub fn decide<F>(obs: &Observation<F>, current_workers: i32, cfg: &Config) -> (res: i32)
    requires
        cfg.min_workers <= cfg.max_workers,
        obs.overloaded() ==> current_workers < i32::MAX,
    ensures
        res == decided(obs.demand as int, obs.overloaded(), current_workers as int, *cfg),
{
    let mut desired: i32 = obs.demand;
    if obs.active && obs.slow && desired < current_workers + 1 {
        desired = current_workers + 1;
    }
    if desired < cfg.min_workers {
        cfg.min_workers
    } else if desired > cfg.max_workers {
        cfg.max_workers
    } else {
        desired
    }
}

/// Tells whether so many units of time have passed since a moment.
fn passed(since: i128, now: u64, count: u64, unit: i128) -> (res: bool)
    requires
        moment_ok(since),
        unit == NS_PER_MS || unit == NS_PER_SEC,
    ensures
        res == (elapsed(since, now) >= count * unit),
{
    let spent: i128 = if (now as i128) < since {
        0
    } else {
        now as i128 - since
    };
    assert(0 <= count * unit <= u64::MAX * NS_PER_SEC) by (nonlinear_arith)
        requires
            0 <= count <= u64::MAX,
            unit == NS_PER_MS || unit == NS_PER_SEC,
    ;
    spent >= count as i128 * unit
}

/// Whether a moment lies within what clock readings and waiting times can reach.
pub open spec fn moment_ok(t: i128) -> bool {
    -(u64::MAX * NS_PER_MS) <= t <= u64::MAX
}

impl<F> Controller<F> {
    /// Whether the state is consistent with the settings.
    pub open spec fn wf(self, cfg: Config) -> bool {
        &&& cfg.valid()
        &&& cfg.min_workers <= self.current_workers <= cfg.max_workers
        &&& moment_ok(self.last_up) && moment_ok(self.last_down) && moment_ok(self.last_burst)
            && moment_ok(self.idle_since)
        &&& self.down_streak < DOWN_TICKS || (self.phase is Shrunk && self.down_streak
            == DOWN_TICKS)
        &&& match self.phase {
            Phase::Bursting { left } => self.current_workers + left <= cfg.max_workers,
            Phase::Scaling { left, desired } => self.current_workers + left <= desired
                && cfg.min_workers <= desired <= cfg.max_workers,
            Phase::Shrink { desired } => cfg.min_workers <= desired <= cfg.max_workers,
            _ => true,
        }
    }

    /// The number of workers to go by: the one that was reported, if it is within the limits.
    pub open spec fn synced(self, cfg: Config, gauge: Option<i32>) -> i32 {
        match gauge {
            Some(w) => if cfg.min_workers <= w <= cfg.max_workers {
                w
            } else {
                self.current_workers
            },
            None => self.current_workers,
        }
    }

    /// Whether a surge is to be heeded.
    pub open spec fn burst_due(self, cfg: Config, obs: Observation<F>, now: u64) -> bool {
        &&& cfg.burst_enabled
        &&& obs.surge()
        &&& passed_ms(self.last_burst, now, cfg.burst_cooldown_ms)
        &&& self.synced(cfg, obs.workers_gauge) < cfg.max_workers
    }

    /// Whether enough time has passed since workers were added or removed to remove one.
    pub open spec fn may_remove(self, cfg: Config, now: u64) -> bool {
        &&& passed_ms(self.last_down, now, cfg.down_cooldown_ms)
        &&& passed_ms(self.last_up, now, cfg.no_downscale_for_ms_after_up)
    }

    /// How many workers to add at once, where there should be more.
    pub open spec fn step_up(self, cfg: Config, desired: int) -> int {
        smaller(
            desired - self.current_workers,
            smaller(cfg.max_step_up as int, greater(1, self.current_workers as int / 2)),
        )
    }

    /// What a step makes of the state, and what it asks for.
    pub open spec fn next(self, cfg: Config, obs: Observation<F>, now: u64) -> (
        Controller<F>,
        Action,
    ) {
        match self.phase {
            Phase::Start => {
                let cur = self.synced(cfg, obs.workers_gauge);
                if self.burst_due(cfg, obs, now) {
                    let left = smaller(cfg.max_workers - cur, cfg.burst_add_workers as int) as i32;
                    (
                        Controller {
                            current_workers: cur,
                            phase: Phase::Bursting { left },
                            ..self
                        },
                        Action::Proceed,
                    )
                } else {
                    (
                        Controller {
                            current_workers: cur,
                            prev_short_rps: if cfg.burst_enabled {
                                obs.short_rps
                            } else {
                                self.prev_short_rps
                            },
                            phase: Phase::Idle,
                            ..self
                        },
                        Action::Proceed,
                    )
                }
            },
            Phase::Bursting { left } => if left > 0 {
                (
                    Controller {
                        current_workers: (self.current_workers + 1) as i32,
                        phase: Phase::Bursting { left: (left - 1) as i32 },
                        ..self
                    },
                    Action::AddWorker,
                )
            } else {
                (
                    Controller {
                        last_up: now as i128,
                        last_burst: now as i128,
                        down_streak: 0,
                        prev_short_rps: obs.short_rps,
                        phase: Phase::Idle,
                        ..self
                    },
                    Action::Proceed,
                )
            },
            Phase::Idle => if !obs.idle {
                (
                    Controller { idle_since: now as i128, phase: Phase::Scale, ..self },
                    Action::Proceed,
                )
            } else if passed_secs(self.idle_since, now, cfg.idle_seconds) && self.current_workers
                > cfg.min_workers && self.may_remove(cfg, now) {
                (
                    Controller {
                        current_workers: (self.current_workers - 1) as i32,
                        phase: Phase::Idled,
                        ..self
                    },
                    Action::RemoveWorker,
                )
            } else {
                (Controller { phase: Phase::Scale, ..self }, Action::Proceed)
            },
            Phase::Idled => (
                Controller { last_down: now as i128, phase: Phase::Scale, ..self },
                Action::Proceed,
            ),
            Phase::Scale => {
                let desired = decided(
                    obs.demand as int,
                    obs.overloaded(),
                    self.current_workers as int,
                    cfg,
                );
                if desired > self.current_workers && passed_ms(
                    self.last_up,
                    now,
                    cfg.up_cooldown_ms,
                ) {
                    let left = self.step_up(cfg, desired) as i32;
                    (
                        Controller {
                            phase: Phase::Scaling { left, desired: desired as i32 },
                            ..self
                        },
                        Action::Proceed,
                    )
                } else {
                    (
                        Controller { phase: Phase::Shrink { desired: desired as i32 }, ..self },
                        Action::Proceed,
                    )
                }
            },
            Phase::Scaling { left, desired } => if left > 0 {
                (
                    Controller {
                        current_workers: (self.current_workers + 1) as i32,
                        phase: Phase::Scaling { left: (left - 1) as i32, desired },
                        ..self
                    },
                    Action::AddWorker,
                )
            } else {
                (
                    Controller {
                        last_up: now as i128,
                        down_streak: 0,
                        phase: Phase::Shrink { desired },
                        ..self
                    },
                    Action::Proceed,
                )
            },
            Phase::Shrink { desired } => if desired >= self.current_workers {
                (Controller { down_streak: 0, phase: Phase::Rest, ..self }, Action::Proceed)
            } else if self.may_remove(cfg, now) && obs.within_slo {
                if self.down_streak + 1 >= DOWN_TICKS {
                    (
                        Controller {
                            current_workers: (self.current_workers - 1) as i32,
                            down_streak: (self.down_streak + 1) as u32,
                            phase: Phase::Shrunk,
                            ..self
                        },
                        Action::RemoveWorker,
                    )
                } else {
                    (
                        Controller {
                            down_streak: (self.down_streak + 1) as u32,
                            phase: Phase::Rest,
                            ..self
                        },
                        Action::Proceed,
                    )
                }
            } else {
                (Controller { phase: Phase::Rest, ..self }, Action::Proceed)
            },
            Phase::Shrunk => (
                Controller { last_down: now as i128, down_streak: 0, phase: Phase::Rest, ..self },
                Action::Proceed,
            ),
            Phase::Rest => (Controller { phase: Phase::Start, ..self }, Action::Sleep),
        }
    }
}

impl<F: Copy> Controller<F> {
    /// A controller for a server with the least number of workers, that may add or remove
    /// workers at once.
    pub fn new(cfg: &Config, now: u64, no_rps: F) -> (res: Controller<F>)
        requires
            cfg.valid(),
        ensures
            res.wf(*cfg),
            res == (Controller {
                current_workers: cfg.min_workers,
                last_up: (now - cfg.up_cooldown_ms * NS_PER_MS) as i128,
                last_down: (now - cfg.down_cooldown_ms * NS_PER_MS) as i128,
                last_burst: (now - cfg.burst_cooldown_ms * NS_PER_MS) as i128,
                idle_since: now as i128,
                down_streak: 0,
                prev_short_rps: no_rps,
                phase: Phase::Start,
            }),
    {
        Controller {
            current_workers: cfg.min_workers,
            last_up: now as i128 - cfg.up_cooldown_ms as i128 * NS_PER_MS,
            last_down: now as i128 - cfg.down_cooldown_ms as i128 * NS_PER_MS,
            last_burst: now as i128 - cfg.burst_cooldown_ms as i128 * NS_PER_MS,
            idle_since: now as i128,
            down_streak: 0,
            prev_short_rps: no_rps,
            phase: Phase::Start,
        }
    }

    /// Tells whether enough time has passed to remove a worker.
    fn removal_allowed(&self, cfg: &Config, now: u64) -> (res: bool)
        requires
            self.wf(*cfg),
        ensures
            res == self.may_remove(*cfg, now),
    {
        passed(self.last_down, now, cfg.down_cooldown_ms, NS_PER_MS) && passed(
            self.last_up,
            now,
            cfg.no_downscale_for_ms_after_up,
            NS_PER_MS,
        )
    }

    /// Takes a step. An action to signal has been carried out before the next step is taken.
    pub fn step(&mut self, cfg: &Config, obs: &Observation<F>, now: u64) -> (res: Action)
        requires
            old(self).wf(*cfg),
            old(self).phase is Scale && obs.overloaded() ==> old(self).current_workers < i32::MAX,
        ensures
            final(self).wf(*cfg),
            (*final(self), res) == old(self).next(*cfg, *obs, now),
    {
        match self.phase {
            Phase::Start => {
                if let Some(w) = obs.workers_gauge {
                    if w >= cfg.min_workers && w <= cfg.max_workers {
                        self.current_workers = w;
                    }
                }
                if cfg.burst_enabled {
                    if obs.high && obs.risen && passed(
                        self.last_burst,
                        now,
                        cfg.burst_cooldown_ms,
                        NS_PER_MS,
                    ) && self.current_workers < cfg.max_workers {
                        let room: i32 = cfg.max_workers - self.current_workers;
                        let left: i32 = if room <= cfg.burst_add_workers {
                            room
                        } else {
                            cfg.burst_add_workers
                        };
                        self.phase = Phase::Bursting { left };
                        return Action::Proceed;
                    }
                    self.prev_short_rps = obs.short_rps;
                }
                self.phase = Phase::Idle;
                Action::Proceed
            },
            Phase::Bursting { left } => {
                if left > 0 {
                    self.current_workers = self.current_workers + 1;
                    self.phase = Phase::Bursting { left: left - 1 };
                    return Action::AddWorker;
                }
                self.last_up = now as i128;
                self.last_burst = now as i128;
                self.down_streak = 0;
                self.prev_short_rps = obs.short_rps;
                self.phase = Phase::Idle;
                Action::Proceed
            },
            Phase::Idle => {
                if obs.idle {
                    if passed(self.idle_since, now, cfg.idle_seconds, NS_PER_SEC)
                        && self.current_workers > cfg.min_workers && self.removal_allowed(
                        cfg,
                        now,
                    ) {
                        self.current_workers = self.current_workers - 1;
                        self.phase = Phase::Idled;
                        return Action::RemoveWorker;
                    }
                } else {
                    self.idle_since = now as i128;
                }
                self.phase = Phase::Scale;
                Action::Proceed
            },
            Phase::Idled => {
                self.last_down = now as i128;
                self.phase = Phase::Scale;
                Action::Proceed
            },
            Phase::Scale => {
                let desired: i32 = decide(obs, self.current_workers, cfg);
                if desired > self.current_workers && passed(
                    self.last_up,
                    now,
                    cfg.up_cooldown_ms,
                    NS_PER_MS,
                ) {
                    let gap: i32 = desired - self.current_workers;
                    let half: i32 = self.current_workers / 2;
                    let pace: i32 = if half < 1 {
                        1
                    } else {
                        half
                    };
                    let most: i32 = if cfg.max_step_up <= pace {
                        cfg.max_step_up
                    } else {
                        pace
                    };
                    let left: i32 = if gap <= most {
                        gap
                    } else {
                        most
                    };
                    self.phase = Phase::Scaling { left, desired };
                } else {
                    self.phase = Phase::Shrink { desired };
                }
                Action::Proceed
            },
            Phase::Scaling { left, desired } => {
                if left > 0 {
                    self.current_workers = self.current_workers + 1;
                    self.phase = Phase::Scaling { left: left - 1, desired };
                    return Action::AddWorker;
                }
                self.last_up = now as i128;
                self.down_streak = 0;
                self.phase = Phase::Shrink { desired };
                Action::Proceed
            },
            Phase::Shrink { desired } => {
                if desired < self.current_workers && self.removal_allowed(cfg, now)
                    && obs.within_slo {
                    self.down_streak = self.down_streak + 1;
                    if self.down_streak >= DOWN_TICKS {
                        self.current_workers = self.current_workers - 1;
                        self.phase = Phase::Shrunk;
                        return Action::RemoveWorker;
                    }
                } else if desired >= self.current_workers {
                    self.down_streak = 0;
                }
                self.phase = Phase::Rest;
                Action::Proceed
            },
            Phase::Shrunk => {
                self.last_down = now as i128;
                self.down_streak = 0;
                self.phase = Phase::Rest;
                Action::Proceed
            },
            Phase::Rest => {
                self.phase = Phase::Start;
                Action::Sleep
            },
        }
    }
}

/// A decision is within the limits.
pub proof fn law_decision_within_limits(demand: int, overloaded: bool, current: int, cfg: Config)
    requires
        cfg.min_workers <= cfg.max_workers,
    ensures
        cfg.min_workers <= decided(demand, overloaded, current, cfg) <= cfg.max_workers,
{
}

/// Neither a greater load, nor an overload, nor a greater number of current workers ever asks for
/// fewer workers.
pub proof fn law_decision_grows_with_load(
    demand: int,
    more: int,
    overloaded: bool,
    overloaded_more: bool,
    current: int,
    more_current: int,
    cfg: Config,
)
    requires
        demand <= more,
        overloaded ==> overloaded_more,
        current <= more_current,
    ensures
        decided(demand, overloaded, current, cfg) <= decided(
            more,
            overloaded_more,
            more_current,
            cfg,
        ),
{
}

/// Of a server that is not overloaded only the demand counts: not how many workers there are or
/// are reported, nor the request rate of the last seconds.
pub proof fn law_only_demand_counts<F>(
    obs: Observation<F>,
    other: Observation<F>,
    current: int,
    other_current: int,
    cfg: Config,
)
    requires
        obs.demand == other.demand,
        !obs.overloaded(),
        !other.overloaded(),
    ensures
        decided(obs.demand as int, obs.overloaded(), current, cfg) == decided(
            other.demand as int,
            other.overloaded(),
            other_current,
            cfg,
        ),
{
}

/// An overloaded server is given more workers, unless it has as many as it may.
pub proof fn law_overload_asks_for_more(demand: int, current: int, cfg: Config)
    requires
        current < cfg.max_workers,
    ensures
        decided(demand, true, current, cfg) > current,
{
}

/// The number of workers never leaves the limits, whatever is observed and whatever the time.
pub proof fn law_workers_stay_within_limits<F>(
    c: Controller<F>,
    cfg: Config,
    obs: Observation<F>,
    now: u64,
)
    requires
        c.wf(cfg),
    ensures
        c.next(cfg, obs, now).0.wf(cfg),
        cfg.min_workers <= c.next(cfg, obs, now).0.current_workers <= cfg.max_workers,
{
}

/// The number of workers changes by exactly the signals that are asked for; only at the start of
/// a tick it is set to the number that was reported, if that is within the limits.
pub proof fn law_signals_account_for_workers<F>(
    c: Controller<F>,
    cfg: Config,
    obs: Observation<F>,
    now: u64,
)
    requires
        c.wf(cfg),
    ensures
        ({
            let (d, action) = c.next(cfg, obs, now);
            match action {
                Action::AddWorker => d.current_workers == c.current_workers + 1,
                Action::RemoveWorker => d.current_workers == c.current_workers - 1,
                _ => d.current_workers == if c.phase is Start {
                    c.synced(cfg, obs.workers_gauge)
                } else {
                    c.current_workers
                },
            }
        }),
        obs.workers_gauge is None ==> c.synced(cfg, obs.workers_gauge) == c.current_workers,
        obs.workers_gauge matches Some(w) ==> c.synced(cfg, obs.workers_gauge) == if cfg.min_workers
            <= w <= cfg.max_workers {
            w
        } else {
            c.current_workers
        },
{
}

/// A worker is removed only while there are more than the least number, only when the waiting
/// times after the last removal and the last addition are over, and only from a server that has
/// been idle for long enough, or that keeps its promises with fewer workers.
pub proof fn law_removal_waits<F>(c: Controller<F>, cfg: Config, obs: Observation<F>, now: u64)
    requires
        c.wf(cfg),
        c.next(cfg, obs, now).1 == Action::RemoveWorker,
    ensures
        c.current_workers > cfg.min_workers,
        passed_ms(c.last_down, now, cfg.down_cooldown_ms),
        passed_ms(c.last_up, now, cfg.no_downscale_for_ms_after_up),
        match c.phase {
            Phase::Idle => obs.idle && passed_secs(c.idle_since, now, cfg.idle_seconds),
            Phase::Shrink { desired } => obs.within_slo && desired < c.current_workers
                && c.down_streak == DOWN_TICKS - 1,
            _ => false,
        },
{
}

/// Workers are added only up to the greatest number. Where there should be more, they are added
/// only when the waiting time is over, and no more of them than the step allows.
pub proof fn law_addition_is_limited<F>(
    c: Controller<F>,
    cfg: Config,
    obs: Observation<F>,
    now: u64,
)
    requires
        c.wf(cfg),
    ensures
        c.next(cfg, obs, now).1 == Action::AddWorker ==> c.current_workers < cfg.max_workers,
        c.phase is Scale && c.next(cfg, obs, now).0.phase is Scaling ==> passed_ms(
            c.last_up,
            now,
            cfg.up_cooldown_ms,
        ),
        c.phase is Scale ==> (c.next(cfg, obs, now).0.phase matches Phase::Scaling { left, desired }
            ==> left <= cfg.max_step_up && left <= greater(1, c.current_workers as int / 2) && left
            <= desired - c.current_workers && c.current_workers < desired),
        c.phase is Start ==> (c.next(cfg, obs, now).0.phase matches Phase::Bursting { left }
            ==> left <= cfg.burst_add_workers && left <= cfg.max_workers - c.synced(
            cfg,
            obs.workers_gauge,
        )),
{
}

/// The state after `n` steps of a tick, with the clock read before each of them.
pub open spec fn after<F>(
    c: Controller<F>,
    cfg: Config,
    obs: Observation<F>,
    clock: spec_fn(nat) -> u64,
    n: nat,
) -> Controller<F>
    decreases n,
{
    if n == 0 {
        c
    } else {
        after(c, cfg, obs, clock, (n - 1) as nat).next(cfg, obs, clock((n - 1) as nat)).0
    }
}

/// What step `n` of a tick asks for.
pub open spec fn asked<F>(
    c: Controller<F>,
    cfg: Config,
    obs: Observation<F>,
    clock: spec_fn(nat) -> u64,
    n: nat,
) -> Action {
    after(c, cfg, obs, clock, n).next(cfg, obs, clock(n)).1
}

/// A tick: what is observed, the clock before each of its steps, and the number of steps.
pub struct Tick<F> {
    pub obs: Observation<F>,
    pub clock: spec_fn(nat) -> u64,
    pub steps: nat,
}

/// Whether a tick consists of the steps up to the first one that asks for a rest.
pub open spec fn is_tick<F>(c: Controller<F>, cfg: Config, t: Tick<F>) -> bool {
    &&& t.steps > 0
    &&& asked(c, cfg, t.obs, t.clock, (t.steps - 1) as nat) == Action::Sleep
    &&& forall|i: nat|
        i < t.steps - 1 ==> #[trigger] asked(c, cfg, t.obs, t.clock, i) != Action::Sleep
}

/// How far the phase is from the end of the tick.
pub open spec fn phases_left(phase: Phase) -> nat {
    match phase {
        Phase::Start => 8,
        Phase::Bursting { .. } => 7,
        Phase::Idle => 6,
        Phase::Idled => 5,
        Phase::Scale => 4,
        Phase::Scaling { .. } => 3,
        Phase::Shrink { .. } => 2,
        Phase::Shrunk => 1,
        Phase::Rest => 0,
    }
}

/// A bound on the number of steps to the end of the tick.
pub open spec fn steps_left(phase: Phase) -> nat {
    let signals = match phase {
        Phase::Bursting { left } => greater(left as int, 0),
        Phase::Scaling { left, .. } => greater(left as int, 0),
        _ => 0,
    };
    (phases_left(phase) * 0x1_0000_0000 + signals) as nat
}

/// Steps of a tick keep the state consistent.
proof fn lemma_after_wf<F>(
    c: Controller<F>,
    cfg: Config,
    obs: Observation<F>,
    clock: spec_fn(nat) -> u64,
    n: nat,
)
    requires
        c.wf(cfg),
    ensures
        after(c, cfg, obs, clock, n).wf(cfg),
    decreases n,
{
    if n > 0 {
        lemma_after_wf(c, cfg, obs, clock, (n - 1) as nat);
    }
}

/// Taking one step and then `n` is taking `n + 1`.
proof fn lemma_after_first<F>(
    c: Controller<F>,
    cfg: Config,
    obs: Observation<F>,
    clock: spec_fn(nat) -> u64,
    n: nat,
)
    ensures
        after(c, cfg, obs, clock, n + 1) == after(
            c.next(cfg, obs, clock(0)).0,
            cfg,
            obs,
            |i: nat| clock(i + 1),
            n,
        ),
    decreases n,
{
    let later = |i: nat| clock(i + 1);
    let d = c.next(cfg, obs, clock(0)).0;
    if n == 0 {
        assert(after(c, cfg, obs, clock, 0) == c);
        assert(after(c, cfg, obs, clock, 1) == d);
    } else {
        lemma_after_first(c, cfg, obs, clock, (n - 1) as nat);
        assert(later((n - 1) as nat) == clock(n));
    }
}

/// A step before the last brings the end of the tick nearer.
proof fn lemma_step_brings_on<F>(c: Controller<F>, cfg: Config, obs: Observation<F>, now: u64)
    requires
        c.wf(cfg),
    ensures
        c.next(cfg, obs, now).0.wf(cfg),
        c.next(cfg, obs, now).1 == Action::Sleep <==> c.phase is Rest,
        !(c.phase is Rest) ==> steps_left(c.next(cfg, obs, now).0.phase) < steps_left(c.phase),
{
}

/// A tick that begins one step earlier takes one step more.
proof fn lemma_one_step_more<F>(
    c: Controller<F>,
    cfg: Config,
    obs: Observation<F>,
    clock: spec_fn(nat) -> u64,
    m: nat,
)
    requires
        c.next(cfg, obs, clock(0)).1 != Action::Sleep,
        is_tick(
            c.next(cfg, obs, clock(0)).0,
            cfg,
            Tick { obs, clock: |i: nat| clock(i + 1), steps: m },
        ),
    ensures
        is_tick(c, cfg, Tick { obs, clock, steps: m + 1 }),
{
    let d = c.next(cfg, obs, clock(0)).0;
    let later = |i: nat| clock(i + 1);
    assert forall|i: nat| i <= m implies #[trigger] asked(c, cfg, obs, clock, i) == if i == 0 {
        c.next(cfg, obs, clock(0)).1
    } else {
        asked(d, cfg, obs, later, (i - 1) as nat)
    } by {
        if i > 0 {
            lemma_after_first(c, cfg, obs, clock, (i - 1) as nat);
            assert(later((i - 1) as nat) == clock(i));
        } else {
            assert(after(c, cfg, obs, clock, 0) == c);
        }
    }
}

/// Every tick comes to its end: a step that asks for a rest.
pub proof fn law_every_tick_ends<F>(
    c: Controller<F>,
    cfg: Config,
    obs: Observation<F>,
    clock: spec_fn(nat) -> u64,
)
    requires
        c.wf(cfg),
    ensures
        exists|n: nat|
            n <= steps_left(c.phase) + 1 && #[trigger] is_tick(
                c,
                cfg,
                Tick { obs, clock, steps: n },
            ),
    decreases steps_left(c.phase),
{
    lemma_step_brings_on(c, cfg, obs, clock(0));
    if c.phase is Rest {
        assert(asked(c, cfg, obs, clock, 0) == c.next(cfg, obs, clock(0)).1) by {
            assert(after(c, cfg, obs, clock, 0) == c);
        }
        assert(is_tick(c, cfg, Tick { obs, clock, steps: 1 }));
    } else {
        let d = c.next(cfg, obs, clock(0)).0;
        let later = |i: nat| clock(i + 1);
        law_every_tick_ends(d, cfg, obs, later);
        let m = choose|m: nat|
            m <= steps_left(d.phase) + 1 && #[trigger] is_tick(
                d,
                cfg,
                Tick { obs, clock: later, steps: m },
            );
        lemma_one_step_more(c, cfg, obs, clock, m);
    }
}

/// A surge is answered at once: in the same tick, as many workers are added as are set for it,
/// or as there is room for, one step after another.
pub proof fn law_burst_adds_at_once<F>(
    c: Controller<F>,
    cfg: Config,
    obs: Observation<F>,
    clock: spec_fn(nat) -> u64,
    k: nat,
)
    requires
        c.wf(cfg),
        c.phase is Start,
        c.burst_due(cfg, obs, clock(0)),
        k <= smaller(
            cfg.max_workers - c.synced(cfg, obs.workers_gauge),
            cfg.burst_add_workers as int,
        ),
    ensures
        forall|i: nat| 1 <= i <= k ==> #[trigger] asked(c, cfg, obs, clock, i) == Action::AddWorker,
        after(c, cfg, obs, clock, k + 1).current_workers == c.synced(cfg, obs.workers_gauge) + k,
        after(c, cfg, obs, clock, k + 1).phase == (Phase::Bursting {
            left: (smaller(
                cfg.max_workers - c.synced(cfg, obs.workers_gauge),
                cfg.burst_add_workers as int,
            ) - k) as i32,
        }),
    decreases k,
{
    if k == 0 {
        assert(after(c, cfg, obs, clock, 0) == c);
        assert(after(c, cfg, obs, clock, 1) == c.next(cfg, obs, clock(0)).0);
    } else {
        law_burst_adds_at_once(c, cfg, obs, clock, (k - 1) as nat);
        lemma_after_wf(c, cfg, obs, clock, k);
        let d = after(c, cfg, obs, clock, k);
        law_burst_goes_on(d, cfg, obs, clock(k), d.phase->Bursting_left);
        assert(asked(c, cfg, obs, clock, k) == d.next(cfg, obs, clock(k)).1);
        assert(after(c, cfg, obs, clock, k + 1) == d.next(cfg, obs, clock(k)).0);
        assert forall|i: nat| 1 <= i <= k implies #[trigger] asked(c, cfg, obs, clock, i)
            == Action::AddWorker by {
            if i < k {
                assert(i <= (k - 1) as nat);
            }
        }
    }
}

/// Until a tick looks whether there should be fewer workers, it does not count as one more tick
/// that asks for fewer.
proof fn lemma_streak_before_shrink<F>(
    c: Controller<F>,
    cfg: Config,
    obs: Observation<F>,
    clock: spec_fn(nat) -> u64,
    n: nat,
)
    requires
        c.wf(cfg),
        c.phase is Start,
        forall|i: nat| i < n ==> #[trigger] asked(c, cfg, obs, clock, i) != Action::Sleep,
    ensures
        phases_left(after(c, cfg, obs, clock, n).phase) >= 2 ==> after(
            c,
            cfg,
            obs,
            clock,
            n,
        ).down_streak <= c.down_streak,
        after(c, cfg, obs, clock, n).down_streak <= c.down_streak + 1,
        n > 0 ==> !(after(c, cfg, obs, clock, n).phase is Start),
    decreases n,
{
    if n > 0 {
        let m = (n - 1) as nat;
        lemma_streak_before_shrink(c, cfg, obs, clock, m);
        lemma_after_wf(c, cfg, obs, clock, m);
        assert(asked(c, cfg, obs, clock, m) != Action::Sleep);
    }
}

/// A worker is removed because there should be fewer only after three ticks in a row that ask
/// for fewer: a tick adds at most one to their number, and does not remove a worker for this
/// reason where fewer than two came before.
pub proof fn law_shrinking_takes_three_ticks<F>(
    c: Controller<F>,
    cfg: Config,
    obs: Observation<F>,
    clock: spec_fn(nat) -> u64,
    n: nat,
)
    requires
        c.wf(cfg),
        c.phase is Start,
        forall|i: nat| i < n ==> #[trigger] asked(c, cfg, obs, clock, i) != Action::Sleep,
    ensures
        after(c, cfg, obs, clock, n).down_streak <= c.down_streak + 1,
        c.down_streak < DOWN_TICKS - 1 && after(c, cfg, obs, clock, n).phase is Shrink ==> asked(
            c,
            cfg,
            obs,
            clock,
            n,
        ) != Action::RemoveWorker,
{
    lemma_streak_before_shrink(c, cfg, obs, clock, n);
    lemma_after_wf(c, cfg, obs, clock, n);
}

/// Once workers were added, none is removed before the waiting time is over, unless more are
/// added in between: of `d`, which still goes by the addition that `c` finished at `now`, a
/// worker is removed only that much later.
pub proof fn law_addition_delays_removal<F>(
    c: Controller<F>,
    obs: Observation<F>,
    now: u64,
    d: Controller<F>,
    obs_then: Observation<F>,
    then_now: u64,
    cfg: Config,
)
    requires
        c.wf(cfg),
        match c.phase {
            Phase::Bursting { left } => left <= 0,
            Phase::Scaling { left, .. } => left <= 0,
            _ => false,
        },
        d.wf(cfg),
        d.last_up == c.next(cfg, obs, now).0.last_up,
        d.next(cfg, obs_then, then_now).1 == Action::RemoveWorker,
    ensures
        elapsed(now as i128, then_now) >= cfg.no_downscale_for_ms_after_up * NS_PER_MS,
        c.next(cfg, obs, now).0.down_streak == 0,
{
}

/// An idle server contracts: a worker is removed as soon as it has been idle for long enough and
/// the waiting times are over, as long as there are more than the least number; and only a tick
/// that finds it busy starts the idle time anew.
pub proof fn law_idle_server_contracts<F>(
    c: Controller<F>,
    cfg: Config,
    obs: Observation<F>,
    now: u64,
)
    requires
        c.wf(cfg),
    ensures
        c.phase is Idle ==> (c.next(cfg, obs, now).1 == Action::RemoveWorker <==> obs.idle
            && passed_secs(c.idle_since, now, cfg.idle_seconds) && c.current_workers
            > cfg.min_workers && c.may_remove(cfg, now)),
        c.next(cfg, obs, now).0.idle_since == if c.phase is Idle && !obs.idle {
            now as i128
        } else {
            c.idle_since
        },
{
}

/// A tick that finds the server idle for long enough removes a worker, in its second step, unless
/// there is a surge, the waiting times are not over, or there are no more than the least number.
pub proof fn law_idle_tick_removes_one<F>(
    c: Controller<F>,
    cfg: Config,
    obs: Observation<F>,
    clock: spec_fn(nat) -> u64,
)
    requires
        c.wf(cfg),
        c.phase is Start,
        !c.burst_due(cfg, obs, clock(0)),
        obs.idle,
        passed_secs(c.idle_since, clock(1), cfg.idle_seconds),
        c.may_remove(cfg, clock(1)),
        c.synced(cfg, obs.workers_gauge) > cfg.min_workers,
    ensures
        asked(c, cfg, obs, clock, 1) == Action::RemoveWorker,
        after(c, cfg, obs, clock, 2).current_workers == c.synced(cfg, obs.workers_gauge) - 1,
{
    assert(after(c, cfg, obs, clock, 0) == c);
    assert(after(c, cfg, obs, clock, 1).phase is Idle);
}

/// How many workers a tick adds that finds `workers` where there should be more.
pub open spec fn step_from(workers: int, cfg: Config, demand: int, overloaded: bool) -> int {
    smaller(
        decided(demand, overloaded, workers, cfg) - workers,
        smaller(cfg.max_step_up as int, greater(1, workers / 2)),
    )
}

/// The first three steps of a tick that finds a busy server with too few workers.
proof fn lemma_busy_tick_starts<F>(
    c: Controller<F>,
    cfg: Config,
    obs: Observation<F>,
    clock: spec_fn(nat) -> u64,
)
    requires
        c.wf(cfg),
        c.phase is Start,
        !c.burst_due(cfg, obs, clock(0)),
        !obs.idle,
        passed_ms(c.last_up, clock(2), cfg.up_cooldown_ms),
        c.synced(cfg, obs.workers_gauge) < decided(
            obs.demand as int,
            obs.overloaded(),
            c.synced(cfg, obs.workers_gauge) as int,
            cfg,
        ),
    ensures
        ({
            let workers = c.synced(cfg, obs.workers_gauge);
            let d = after(c, cfg, obs, clock, 3);
            &&& d.current_workers == workers
            &&& d.phase == (Phase::Scaling {
                left: step_from(workers as int, cfg, obs.demand as int, obs.overloaded()) as i32,
                desired: decided(
                    obs.demand as int,
                    obs.overloaded(),
                    workers as int,
                    cfg,
                ) as i32,
            })
        }),
{
    let workers = c.synced(cfg, obs.workers_gauge);
    let (one, two) = (after(c, cfg, obs, clock, 1), after(c, cfg, obs, clock, 2));
    assert(one == c.next(cfg, obs, clock(0)).0) by {
        assert(after(c, cfg, obs, clock, 0) == c);
    }
    assert(one.phase is Idle && one.current_workers == workers && one.last_up == c.last_up);
    assert(two == one.next(cfg, obs, clock(1)).0);
    assert(two.phase is Scale && two.current_workers == workers && two.last_up == c.last_up);
    assert(after(c, cfg, obs, clock, 3) == two.next(cfg, obs, clock(2)).0);
}

/// A step that adds one of the workers that are left to add.
proof fn lemma_scaling_step<F>(c: Controller<F>, cfg: Config, obs: Observation<F>, now: u64)
    requires
        c.wf(cfg),
        c.phase matches Phase::Scaling { left, .. } && left > 0,
    ensures
        c.next(cfg, obs, now).1 == Action::AddWorker,
        c.next(cfg, obs, now).0.current_workers == c.current_workers + 1,
        c.next(cfg, obs, now).0.phase == (Phase::Scaling {
            left: (c.phase->Scaling_left - 1) as i32,
            desired: c.phase->Scaling_desired,
        }),
{
}

/// Steps that add workers, one after another, from step `n` of a tick on.
proof fn lemma_scaling_steps<F>(
    c: Controller<F>,
    cfg: Config,
    obs: Observation<F>,
    clock: spec_fn(nat) -> u64,
    n: nat,
    k: nat,
)
    requires
        c.wf(cfg),
        after(c, cfg, obs, clock, n).phase matches Phase::Scaling { left, .. } && k <= left,
    ensures
        forall|i: nat|
            n <= i < n + k ==> #[trigger] asked(c, cfg, obs, clock, i) == Action::AddWorker,
        ({
            let (d, e) = (after(c, cfg, obs, clock, n), after(c, cfg, obs, clock, n + k));
            &&& e.current_workers == d.current_workers + k
            &&& e.phase == (Phase::Scaling {
                left: (d.phase->Scaling_left - k) as i32,
                desired: d.phase->Scaling_desired,
            })
        }),
    decreases k,
{
    if k > 0 {
        let m = (n + k - 1) as nat;
        lemma_scaling_steps(c, cfg, obs, clock, n, (k - 1) as nat);
        lemma_after_wf(c, cfg, obs, clock, m);
        let d = after(c, cfg, obs, clock, m);
        lemma_scaling_step(d, cfg, obs, clock(m));
        assert(after(c, cfg, obs, clock, n + k) == d.next(cfg, obs, clock(m)).0);
        assert(asked(c, cfg, obs, clock, m) == d.next(cfg, obs, clock(m)).1);
    }
}

/// A tick that finds a busy server with too few workers adds as many as are missing, or as the
/// step allows, one after another, when the waiting time is over and there is no surge.
pub proof fn law_busy_tick_adds_workers<F>(
    c: Controller<F>,
    cfg: Config,
    obs: Observation<F>,
    clock: spec_fn(nat) -> u64,
    k: nat,
)
    requires
        c.wf(cfg),
        c.phase is Start,
        !c.burst_due(cfg, obs, clock(0)),
        !obs.idle,
        passed_ms(c.last_up, clock(2), cfg.up_cooldown_ms),
        c.synced(cfg, obs.workers_gauge) < decided(
            obs.demand as int,
            obs.overloaded(),
            c.synced(cfg, obs.workers_gauge) as int,
            cfg,
        ),
        k <= step_from(
            c.synced(cfg, obs.workers_gauge) as int,
            cfg,
            obs.demand as int,
            obs.overloaded(),
        ),
    ensures
        forall|i: nat|
            3 <= i < k + 3 ==> #[trigger] asked(c, cfg, obs, clock, i) == Action::AddWorker,
        ({
            let workers = c.synced(cfg, obs.workers_gauge);
            let d = after(c, cfg, obs, clock, k + 3);
            &&& d.current_workers == workers + k
            &&& d.phase == (Phase::Scaling {
                left: (step_from(workers as int, cfg, obs.demand as int, obs.overloaded())
                    - k) as i32,
                desired: decided(
                    obs.demand as int,
                    obs.overloaded(),
                    workers as int,
                    cfg,
                ) as i32,
            })
        }),
{
    lemma_busy_tick_starts(c, cfg, obs, clock);
    lemma_scaling_steps(c, cfg, obs, clock, 3, k);
}

/// An overloaded server grows: when the waiting time is over, a worker is added, unless there
/// are as many as there may be or additions are switched off.
pub proof fn law_overloaded_server_grows<F>(
    c: Controller<F>,
    cfg: Config,
    obs: Observation<F>,
    now: u64,
    then_now: u64,
)
    requires
        c.wf(cfg),
        c.phase is Scale,
        obs.overloaded(),
        passed_ms(c.last_up, now, cfg.up_cooldown_ms),
        c.current_workers < cfg.max_workers,
        cfg.max_step_up >= 1,
    ensures
        c.next(cfg, obs, now).0.next(cfg, obs, then_now).1 == Action::AddWorker,
{
}

/// The state after a tick.
pub open spec fn ticked<F>(c: Controller<F>, cfg: Config, t: Tick<F>) -> Controller<F> {
    after(c, cfg, t.obs, t.clock, t.steps)
}

/// The state after ticks, one after another.
pub open spec fn run<F>(c: Controller<F>, cfg: Config, ticks: Seq<Tick<F>>) -> Controller<F>
    decreases ticks.len(),
{
    if ticks.len() == 0 {
        c
    } else {
        ticked(run(c, cfg, ticks.drop_last()), cfg, ticks.last())
    }
}

/// Whether traffic has dropped: there is no surge, nothing to do, and no need for more than the
/// least number of workers.
pub open spec fn quiet<F>(obs: Observation<F>, cfg: Config) -> bool {
    &&& obs.idle
    &&& !obs.surge()
    &&& !obs.overloaded()
    &&& obs.demand <= cfg.min_workers
}

/// Whether a phase can be reached while traffic has dropped.
spec fn quiet_phase(phase: Phase, cfg: Config) -> bool {
    match phase {
        Phase::Bursting { .. } => false,
        Phase::Scaling { .. } => false,
        Phase::Shrink { desired } => desired == cfg.min_workers,
        _ => true,
    }
}

/// A step while traffic has dropped.
proof fn lemma_quiet_step<F>(c: Controller<F>, cfg: Config, obs: Observation<F>, now: u64)
    requires
        c.wf(cfg),
        quiet(obs, cfg),
        quiet_phase(c.phase, cfg),
        c.phase is Start ==> c.synced(cfg, obs.workers_gauge) == c.current_workers,
    ensures
        ({
            let (d, action) = c.next(cfg, obs, now);
            &&& quiet_phase(d.phase, cfg)
            &&& d.last_up == c.last_up
            &&& d.idle_since == c.idle_since
            &&& d.last_down == c.last_down || d.last_down == now
            &&& d.current_workers <= c.current_workers
            &&& c.phase is Start ==> d.phase is Idle && d.current_workers == c.current_workers
                && d.last_down == c.last_down
            &&& c.phase is Idle && passed_secs(c.idle_since, now, cfg.idle_seconds) && c.may_remove(
                cfg,
                now,
            ) && c.current_workers > cfg.min_workers ==> d.current_workers == c.current_workers - 1
            &&& action == Action::Sleep <==> c.phase is Rest
            &&& d.phase is Start <==> c.phase is Rest
        }),
{
}

/// The steps of a tick while traffic has dropped.
proof fn lemma_quiet_steps<F>(
    c: Controller<F>,
    cfg: Config,
    obs: Observation<F>,
    clock: spec_fn(nat) -> u64,
    n: nat,
)
    requires
        c.wf(cfg),
        c.phase is Start,
        quiet(obs, cfg),
        c.synced(cfg, obs.workers_gauge) == c.current_workers,
        forall|i: nat| i < n ==> #[trigger] asked(c, cfg, obs, clock, i) != Action::Sleep,
    ensures
        ({
            let d = after(c, cfg, obs, clock, n);
            &&& d.wf(cfg)
            &&& quiet_phase(d.phase, cfg)
            &&& d.last_up == c.last_up
            &&& d.idle_since == c.idle_since
            &&& d.last_down == c.last_down || exists|i: nat|
                i < n && d.last_down == #[trigger] clock(i)
            &&& d.current_workers <= c.current_workers
            &&& n > 0 ==> !(d.phase is Start)
            &&& n == 1 ==> d.phase is Idle && d.last_down == c.last_down && d.current_workers
                == c.current_workers
            &&& n >= 2 && passed_secs(c.idle_since, clock(1), cfg.idle_seconds) && c.may_remove(
                cfg,
                clock(1),
            ) && c.current_workers > cfg.min_workers ==> d.current_workers < c.current_workers
        }),
    decreases n,
{
    lemma_after_wf(c, cfg, obs, clock, n);
    if n > 0 {
        let m = (n - 1) as nat;
        lemma_quiet_steps(c, cfg, obs, clock, m);
        let d = after(c, cfg, obs, clock, m);
        assert(asked(c, cfg, obs, clock, m) == d.next(cfg, obs, clock(m)).1);
        assert(after(c, cfg, obs, clock, n) == d.next(cfg, obs, clock(m)).0);
        assert(m == 0 ==> d == c);
        lemma_quiet_step(d, cfg, obs, clock(m));
    }
}

/// What a tick makes of the state while traffic has dropped.
proof fn lemma_quiet_tick<F>(c: Controller<F>, cfg: Config, t: Tick<F>)
    requires
        c.wf(cfg),
        c.phase is Start,
        is_tick(c, cfg, t),
        quiet(t.obs, cfg),
        c.synced(cfg, t.obs.workers_gauge) == c.current_workers,
    ensures
        ({
            let d = ticked(c, cfg, t);
            &&& d.wf(cfg)
            &&& d.phase is Start
            &&& d.last_up == c.last_up
            &&& d.idle_since == c.idle_since
            &&& d.last_down == c.last_down || exists|i: nat|
                i < t.steps && d.last_down == #[trigger] (t.clock)(i)
            &&& d.current_workers <= c.current_workers
            &&& passed_secs(c.idle_since, (t.clock)(1), cfg.idle_seconds) && c.may_remove(
                cfg,
                (t.clock)(1),
            ) && c.current_workers > cfg.min_workers ==> d.current_workers < c.current_workers
        }),
{
    let m = (t.steps - 1) as nat;
    lemma_quiet_steps(c, cfg, t.obs, t.clock, m);
    let d = after(c, cfg, t.obs, t.clock, m);
    assert(asked(c, cfg, t.obs, t.clock, m) == d.next(cfg, t.obs, (t.clock)(m)).1);
    assert(ticked(c, cfg, t) == d.next(cfg, t.obs, (t.clock)(m)).0);
    assert(m == 0 ==> d == c);
    lemma_quiet_step(d, cfg, t.obs, (t.clock)(m));
    lemma_after_wf(c, cfg, t.obs, t.clock, t.steps);
}

/// Whether a tick finds that traffic has dropped for long enough, with the waiting times over, and
/// no other number of workers reported.
pub open spec fn idle_tick<F>(c: Controller<F>, cfg: Config, t: Tick<F>) -> bool {
    &&& is_tick(c, cfg, t)
    &&& quiet(t.obs, cfg)
    &&& c.synced(cfg, t.obs.workers_gauge) == c.current_workers
    &&& passed_secs(c.idle_since, (t.clock)(1), cfg.idle_seconds)
    &&& c.may_remove(cfg, (t.clock)(1))
}

/// Each idle tick leaves fewer workers, as long as there are more than the least number; and never
/// fewer than that.
pub proof fn law_idle_tick_contracts<F>(c: Controller<F>, cfg: Config, t: Tick<F>)
    requires
        c.wf(cfg),
        c.phase is Start,
        idle_tick(c, cfg, t),
    ensures
        ticked(c, cfg, t).wf(cfg),
        ticked(c, cfg, t).phase is Start,
        cfg.min_workers <= ticked(c, cfg, t).current_workers <= greater(
            cfg.min_workers as int,
            c.current_workers - 1,
        ),
{
    lemma_quiet_tick(c, cfg, t);
}

/// When traffic drops, the service contracts to minimal resources: the number of workers falls
/// with each idle tick until it equals the least number, and stays there.
pub proof fn law_service_contracts<F>(c: Controller<F>, cfg: Config, ticks: Seq<Tick<F>>)
    requires
        c.wf(cfg),
        c.phase is Start,
        forall|i: int|
            0 <= i < ticks.len() ==> idle_tick(
                run(c, cfg, ticks.take(i)),
                cfg,
                #[trigger] ticks[i],
            ),
    ensures
        run(c, cfg, ticks).wf(cfg),
        run(c, cfg, ticks).phase is Start,
        cfg.min_workers <= run(c, cfg, ticks).current_workers <= greater(
            cfg.min_workers as int,
            c.current_workers - ticks.len(),
        ),
        ticks.len() >= c.current_workers - cfg.min_workers ==> run(c, cfg, ticks).current_workers
            == cfg.min_workers,
    decreases ticks.len(),
{
    if ticks.len() > 0 {
        let rest = ticks.drop_last();
        let last = ticks.len() - 1;
        assert forall|i: int| 0 <= i < rest.len() implies idle_tick(
            run(c, cfg, rest.take(i)),
            cfg,
            #[trigger] rest[i],
        ) by {
            assert(rest[i] == ticks[i]);
            assert(rest.take(i) =~= ticks.take(i));
        }
        law_service_contracts(c, cfg, rest);
        assert(ticks.take(last) =~= rest);
        assert(ticks[last] == ticks.last());
        law_idle_tick_contracts(run(c, cfg, rest), cfg, ticks.last());
    }
}

/// Whether ticks find that traffic has dropped, with no number of workers reported, at times that
/// lie after all waiting times: those that ran when the ticks began, and, after each tick, the
/// one that a removal starts.
pub open spec fn idle_run<F>(c: Controller<F>, cfg: Config, ticks: Seq<Tick<F>>) -> bool {
    &&& forall|i: int|
        0 <= i < ticks.len() ==> {
            let t = #[trigger] ticks[i];
            &&& is_tick(run(c, cfg, ticks.take(i)), cfg, t)
            &&& quiet(t.obs, cfg)
            &&& t.obs.workers_gauge is None
            &&& passed_secs(c.idle_since, (t.clock)(1), cfg.idle_seconds)
            &&& c.may_remove(cfg, (t.clock)(1))
        }
    &&& forall|i: int, j: int, n: nat|
        #![trigger ticks[i], (ticks[j].clock)(n)]
        0 <= j < i < ticks.len() && n < ticks[j].steps ==> passed_ms(
            (ticks[j].clock)(n) as i128,
            (ticks[i].clock)(1),
            cfg.down_cooldown_ms,
        )
}

/// What ticks make of the times while traffic has dropped.
proof fn lemma_idle_run<F>(c: Controller<F>, cfg: Config, ticks: Seq<Tick<F>>, k: int)
    requires
        c.wf(cfg),
        c.phase is Start,
        idle_run(c, cfg, ticks),
        0 <= k <= ticks.len(),
    ensures
        ({
            let d = run(c, cfg, ticks.take(k));
            &&& d.wf(cfg)
            &&& d.phase is Start
            &&& d.last_up == c.last_up
            &&& d.idle_since == c.idle_since
            &&& d.last_down == c.last_down || exists|j: int, n: nat|
                0 <= j < k && n < ticks[j].steps && d.last_down == #[trigger] (ticks[j].clock)(n)
            &&& k < ticks.len() ==> idle_tick(d, cfg, ticks[k])
        }),
    decreases k,
{
    if k > 0 {
        lemma_idle_run(c, cfg, ticks, k - 1);
        let before = run(c, cfg, ticks.take(k - 1));
        let t = ticks[k - 1];
        assert(ticks.take(k).drop_last() =~= ticks.take(k - 1));
        assert(ticks.take(k).last() == t);
        lemma_quiet_tick(before, cfg, t);
        let d = run(c, cfg, ticks.take(k));
        assert(d == ticked(before, cfg, t));
        if d.last_down != before.last_down {
            let n = choose|n: nat| n < t.steps && d.last_down == #[trigger] (t.clock)(n);
            assert(d.last_down == (ticks[k - 1].clock)(n));
        }
    } else {
        assert(ticks.take(0) =~= Seq::<Tick<F>>::empty());
    }
    if k < ticks.len() {
        let d = run(c, cfg, ticks.take(k));
        let now = (ticks[k].clock)(1);
        if d.last_down != c.last_down {
            let (j, n) = choose|j: int, n: nat|
                0 <= j < k && n < ticks[j].steps && d.last_down == #[trigger] (ticks[j].clock)(n);
            assert(passed_ms((ticks[j].clock)(n) as i128, now, cfg.down_cooldown_ms));
        }
    }
}

/// The same, by the clock alone: where traffic has dropped, and each tick comes when the waiting
/// time after the readings of those before is over, as many ticks as there are workers above the
/// least number leave just that number.
pub proof fn law_service_contracts_in_time<F>(c: Controller<F>, cfg: Config, ticks: Seq<Tick<F>>)
    requires
        c.wf(cfg),
        c.phase is Start,
        idle_run(c, cfg, ticks),
    ensures
        cfg.min_workers <= run(c, cfg, ticks).current_workers <= greater(
            cfg.min_workers as int,
            c.current_workers - ticks.len(),
        ),
        ticks.len() >= c.current_workers - cfg.min_workers ==> run(c, cfg, ticks).current_workers
            == cfg.min_workers,
{
    assert forall|i: int| 0 <= i < ticks.len() implies idle_tick(
        run(c, cfg, ticks.take(i)),
        cfg,
        #[trigger] ticks[i],
    ) by {
        lemma_idle_run(c, cfg, ticks, i);
    }
    law_service_contracts(c, cfg, ticks);
}

/// Whether a tick of a busy server asks for fewer workers and may remove one: there is no surge,
/// requests take no longer than they should, no other number of workers is reported, and the
/// waiting times are over when it looks.
pub open spec fn shrinking_tick<F>(c: Controller<F>, cfg: Config, t: Tick<F>) -> bool {
    &&& is_tick(c, cfg, t)
    &&& !t.obs.surge()
    &&& !t.obs.idle
    &&& t.obs.within_slo
    &&& c.synced(cfg, t.obs.workers_gauge) == c.current_workers
    &&& decided(t.obs.demand as int, t.obs.overloaded(), c.current_workers as int, cfg)
        < c.current_workers
    &&& c.may_remove(cfg, (t.clock)(3))
}

/// The first steps of a tick that asks for fewer workers, up to the one that looks for that.
proof fn lemma_shrinking_steps<F>(c: Controller<F>, cfg: Config, t: Tick<F>)
    requires
        c.wf(cfg),
        c.phase is Start,
        shrinking_tick(c, cfg, t),
    ensures
        asked(c, cfg, t.obs, t.clock, 0) == Action::Proceed,
        asked(c, cfg, t.obs, t.clock, 1) == Action::Proceed,
        asked(c, cfg, t.obs, t.clock, 2) == Action::Proceed,
        ({
            let d = after(c, cfg, t.obs, t.clock, 3);
            &&& d.wf(cfg)
            &&& d.phase matches Phase::Shrink { desired } && desired < c.current_workers
            &&& d.current_workers == c.current_workers
            &&& d.down_streak == c.down_streak
            &&& d.last_up == c.last_up
            &&& d.last_down == c.last_down
        }),
{
    lemma_after_wf(c, cfg, t.obs, t.clock, 3);
    let one = after(c, cfg, t.obs, t.clock, 1);
    let two = after(c, cfg, t.obs, t.clock, 2);
    assert(one == c.next(cfg, t.obs, (t.clock)(0)).0) by {
        assert(after(c, cfg, t.obs, t.clock, 0) == c);
    }
    assert(one.phase is Idle && one.current_workers == c.current_workers);
    assert(two == one.next(cfg, t.obs, (t.clock)(1)).0);
    assert(two.phase is Scale && two.current_workers == c.current_workers);
    assert(after(c, cfg, t.obs, t.clock, 3) == two.next(cfg, t.obs, (t.clock)(2)).0);
}

/// A tick that asks for fewer workers counts as one more, where fewer than two came before, and
/// otherwise removes a worker.
pub proof fn law_shrinking_tick_counts_or_removes<F>(c: Controller<F>, cfg: Config, t: Tick<F>)
    requires
        c.wf(cfg),
        c.phase is Start,
        shrinking_tick(c, cfg, t),
    ensures
        ({
            let d = ticked(c, cfg, t);
            &&& d.wf(cfg)
            &&& d.phase is Start
            &&& c.down_streak < DOWN_TICKS - 1 ==> d.current_workers == c.current_workers
                && d.down_streak == c.down_streak + 1 && d.last_up == c.last_up && d.last_down
                == c.last_down
            &&& c.down_streak == DOWN_TICKS - 1 ==> asked(c, cfg, t.obs, t.clock, 3)
                == Action::RemoveWorker && d.current_workers == c.current_workers - 1
                && d.down_streak == 0
        }),
{
    lemma_shrinking_steps(c, cfg, t);
    lemma_after_wf(c, cfg, t.obs, t.clock, t.steps);
    let three = after(c, cfg, t.obs, t.clock, 3);
    let four = after(c, cfg, t.obs, t.clock, 4);
    let five = after(c, cfg, t.obs, t.clock, 5);
    assert(four == three.next(cfg, t.obs, (t.clock)(3)).0);
    assert(asked(c, cfg, t.obs, t.clock, 3) == three.next(cfg, t.obs, (t.clock)(3)).1);
    assert(asked(c, cfg, t.obs, t.clock, 4) == four.next(cfg, t.obs, (t.clock)(4)).1);
    assert(five == four.next(cfg, t.obs, (t.clock)(4)).0);
    let m = (t.steps - 1) as nat;
    assert(m != 0 && m != 1 && m != 2 && m != 3);
    if c.down_streak < DOWN_TICKS - 1 {
        assert(four.phase is Rest);
        assert(m == 4);
    } else {
        assert(four.phase is Shrunk);
        assert(five.phase is Rest);
        assert(asked(c, cfg, t.obs, t.clock, 5) == five.next(cfg, t.obs, (t.clock)(5)).1);
        assert(after(c, cfg, t.obs, t.clock, 6) == five.next(cfg, t.obs, (t.clock)(5)).0);
        assert(m == 5);
    }
}

/// The third tick in a row that asks for fewer workers removes one, and those before it none.
pub proof fn law_third_shrinking_tick_removes<F>(
    c: Controller<F>,
    cfg: Config,
    first: Tick<F>,
    second: Tick<F>,
    third: Tick<F>,
)
    requires
        c.wf(cfg),
        c.phase is Start,
        c.down_streak == 0,
        shrinking_tick(c, cfg, first),
        shrinking_tick(ticked(c, cfg, first), cfg, second),
        shrinking_tick(ticked(ticked(c, cfg, first), cfg, second), cfg, third),
    ensures
        ({
            let before = ticked(ticked(c, cfg, first), cfg, second);
            &&& before.current_workers == c.current_workers
            &&& asked(before, cfg, third.obs, third.clock, 3) == Action::RemoveWorker
            &&& ticked(before, cfg, third).current_workers == c.current_workers - 1
            &&& ticked(before, cfg, third).down_streak == 0
        }),
{
    law_shrinking_tick_counts_or_removes(c, cfg, first);
    law_shrinking_tick_counts_or_removes(ticked(c, cfg, first), cfg, second);
    law_shrinking_tick_counts_or_removes(ticked(ticked(c, cfg, first), cfg, second), cfg, third);
}

/// What a waiting time is: it is over once as many thousandths of a second, or seconds, as are set
/// have passed on the clock, which counts billionths of a second; none is over at once.
pub proof fn law_waiting_times(since: i128, now: u64, wait: u64)
    ensures
        passed_ms(since, now, wait) <==> wait == 0 || now - since >= wait * 1_000_000,
        passed_secs(since, now, wait) <==> wait == 0 || now - since >= wait * 1_000_000_000,
{
}

/// Without overload, the demand is the decision, where it is within the limits. With overload it is
/// the demand or one more than there are, whichever is greater, where that is within the limits.
/// What lies beyond a limit is that limit.
pub proof fn law_decision_is_the_demand(demand: int, current: int, cfg: Config)
    requires
        cfg.min_workers <= cfg.max_workers,
    ensures
        cfg.min_workers <= demand <= cfg.max_workers ==> decided(demand, false, current, cfg)
            == demand,
        demand < cfg.min_workers ==> decided(demand, false, current, cfg) == cfg.min_workers,
        demand > cfg.max_workers ==> decided(demand, false, current, cfg) == cfg.max_workers,
        demand > current ==> decided(demand, true, current, cfg) == decided(
            demand,
            false,
            current,
            cfg,
        ),
        demand <= current && cfg.min_workers <= current + 1 <= cfg.max_workers ==> decided(
            demand,
            true,
            current,
            cfg,
        ) == current + 1,
        demand <= current && current + 1 < cfg.min_workers ==> decided(demand, true, current, cfg)
            == cfg.min_workers,
        demand <= current && current >= cfg.max_workers ==> decided(demand, true, current, cfg)
            == cfg.max_workers,
{
}

/// What is observed is a surge exactly where the rate is high and has risen, and an overload
/// exactly where the server is active and slow.
pub proof fn law_surge_and_overload<F>(obs: Observation<F>)
    ensures
        obs.surge() <==> obs.high && obs.risen,
        obs.overloaded() <==> obs.active && obs.slow,
{
}

/// How a tick starts. The number of workers is the reported one, where it is within the limits. A
/// surge is heeded exactly where bursts are enabled, the rate is high and has risen, the waiting
/// time since the last burst is over, and there are fewer workers than there may be, whatever
/// else is observed; then as many are to be added as are set, or as there is room for.
pub proof fn law_start_of_a_tick<F>(c: Controller<F>, cfg: Config, obs: Observation<F>, now: u64)
    requires
        c.wf(cfg),
        c.phase is Start,
    ensures
        ({
            let (d, action) = c.next(cfg, obs, now);
            let burst = cfg.burst_enabled && obs.high && obs.risen && (cfg.burst_cooldown_ms == 0
                || now - c.last_burst >= cfg.burst_cooldown_ms * 1_000_000) && d.current_workers
                < cfg.max_workers;
            &&& action == Action::Proceed
            &&& obs.workers_gauge is None ==> d.current_workers == c.current_workers
            &&& obs.workers_gauge matches Some(w) ==> d.current_workers == if w < cfg.min_workers
                || w > cfg.max_workers {
                c.current_workers
            } else {
                w
            }
            &&& burst ==> {
                &&& d == (Controller {
                    current_workers: d.current_workers,
                    phase: Phase::Bursting { left: d.phase->Bursting_left },
                    ..c
                })
                &&& d.phase->Bursting_left <= cfg.max_workers - d.current_workers
                &&& d.phase->Bursting_left <= cfg.burst_add_workers
                &&& d.phase->Bursting_left == cfg.max_workers - d.current_workers
                    || d.phase->Bursting_left == cfg.burst_add_workers
            }
            &&& !burst ==> d == (Controller {
                current_workers: d.current_workers,
                prev_short_rps: if cfg.burst_enabled {
                    obs.short_rps
                } else {
                    c.prev_short_rps
                },
                phase: Phase::Idle,
                ..c
            })
        }),
{
}

/// How a burst goes on: a worker is added with each step while some are left to add; then the
/// moment is noted as that of the last addition and of the last burst, and the rate is kept.
pub proof fn law_burst_goes_on<F>(
    c: Controller<F>,
    cfg: Config,
    obs: Observation<F>,
    now: u64,
    left: i32,
)
    requires
        c.wf(cfg),
        c.phase == (Phase::Bursting { left }),
    ensures
        left > 0 ==> c.next(cfg, obs, now) == (
            Controller {
                current_workers: (c.current_workers + 1) as i32,
                phase: Phase::Bursting { left: (left - 1) as i32 },
                ..c
            },
            Action::AddWorker,
        ),
        left <= 0 ==> c.next(cfg, obs, now) == (
            Controller {
                last_up: now as i128,
                last_burst: now as i128,
                down_streak: 0,
                prev_short_rps: obs.short_rps,
                phase: Phase::Idle,
                ..c
            },
            Action::Proceed,
        ),
{
}

/// How idleness is dealt with. A busy server starts its idle time anew. From an idle one a worker
/// is removed exactly where the idle time is over, there are more than the least number, and the
/// waiting times since the last removal and the last addition are over; the removal is then noted
/// as the last.
pub proof fn law_idleness<F>(c: Controller<F>, cfg: Config, obs: Observation<F>, now: u64)
    requires
        c.wf(cfg),
    ensures
        c.phase is Idle ==> {
            let remove = obs.idle && (cfg.idle_seconds == 0 || now - c.idle_since
                >= cfg.idle_seconds * 1_000_000_000) && c.current_workers > cfg.min_workers && (
            cfg.down_cooldown_ms == 0 || now - c.last_down >= cfg.down_cooldown_ms * 1_000_000) && (
            cfg.no_downscale_for_ms_after_up == 0 || now - c.last_up
                >= cfg.no_downscale_for_ms_after_up * 1_000_000);
            &&& remove ==> c.next(cfg, obs, now) == (
                Controller {
                    current_workers: (c.current_workers - 1) as i32,
                    phase: Phase::Idled,
                    ..c
                },
                Action::RemoveWorker,
            )
            &&& !remove && obs.idle ==> c.next(cfg, obs, now) == (
                Controller { phase: Phase::Scale, ..c },
                Action::Proceed,
            )
            &&& !obs.idle ==> c.next(cfg, obs, now) == (
                Controller { idle_since: now as i128, phase: Phase::Scale, ..c },
                Action::Proceed,
            )
        },
        c.phase is Idled ==> c.next(cfg, obs, now) == (
            Controller { last_down: now as i128, phase: Phase::Scale, ..c },
            Action::Proceed,
        ),
{
}

/// How growth is decided. Workers are to be added exactly where the decision is for more than there
/// are and the waiting time since the last addition is over: as many as are missing, or as the
/// greatest step, or as half of those there are, and one at least of these, whichever is least.
pub proof fn law_growth_is_decided<F>(c: Controller<F>, cfg: Config, obs: Observation<F>, now: u64)
    requires
        c.wf(cfg),
        c.phase is Scale,
    ensures
        ({
            let (d, action) = c.next(cfg, obs, now);
            let desired = decided(
                obs.demand as int,
                obs.active && obs.slow,
                c.current_workers as int,
                cfg,
            );
            let gap = desired - c.current_workers;
            let half = if c.current_workers >= 2 {
                c.current_workers as int / 2
            } else {
                1
            };
            let grow = gap > 0 && (cfg.up_cooldown_ms == 0 || now - c.last_up >= cfg.up_cooldown_ms
                * 1_000_000);
            &&& action == Action::Proceed
            &&& !grow ==> d == (Controller {
                phase: Phase::Shrink { desired: desired as i32 },
                ..c
            })
            &&& grow ==> {
                let left = d.phase->Scaling_left;
                &&& d == (Controller {
                    phase: Phase::Scaling { left, desired: desired as i32 },
                    ..c
                })
                &&& left <= gap && left <= cfg.max_step_up && left <= half
                &&& left == gap || left == cfg.max_step_up || left == half
            }
        }),
{
}

/// How growth goes on: a worker is added with each step while some are left to add; then the moment
/// is noted as that of the last addition.
pub proof fn law_growth_goes_on<F>(
    c: Controller<F>,
    cfg: Config,
    obs: Observation<F>,
    now: u64,
    left: i32,
    desired: i32,
)
    requires
        c.wf(cfg),
        c.phase == (Phase::Scaling { left, desired }),
    ensures
        left > 0 ==> c.next(cfg, obs, now) == (
            Controller {
                current_workers: (c.current_workers + 1) as i32,
                phase: Phase::Scaling { left: (left - 1) as i32, desired },
                ..c
            },
            Action::AddWorker,
        ),
        left <= 0 ==> c.next(cfg, obs, now) == (
            Controller {
                last_up: now as i128,
                down_streak: 0,
                phase: Phase::Shrink { desired },
                ..c
            },
            Action::Proceed,
        ),
{
}

/// How shrinking is decided. A tick that does not ask for fewer workers ends the row of those that
/// do. One that does counts exactly where both waiting times are over and requests take no longer
/// than they should: the third in the row removes a worker. One that does not count leaves the
/// row as it is.
pub proof fn law_shrinking_is_decided<F>(
    c: Controller<F>,
    cfg: Config,
    obs: Observation<F>,
    now: u64,
    desired: i32,
)
    requires
        c.wf(cfg),
        c.phase == (Phase::Shrink { desired }),
    ensures
        ({
            let counts = desired < c.current_workers && obs.within_slo && (cfg.down_cooldown_ms == 0
                || now - c.last_down >= cfg.down_cooldown_ms * 1_000_000) && (
            cfg.no_downscale_for_ms_after_up == 0 || now - c.last_up
                >= cfg.no_downscale_for_ms_after_up * 1_000_000);
            &&& desired >= c.current_workers ==> c.next(cfg, obs, now) == (
                Controller { down_streak: 0, phase: Phase::Rest, ..c },
                Action::Proceed,
            )
            &&& desired < c.current_workers && !counts ==> c.next(cfg, obs, now) == (
                Controller { phase: Phase::Rest, ..c },
                Action::Proceed,
            )
            &&& counts && c.down_streak < 2 ==> c.next(cfg, obs, now) == (
                Controller {
                    down_streak: (c.down_streak + 1) as u32,
                    phase: Phase::Rest,
                    ..c
                },
                Action::Proceed,
            )
            &&& counts && c.down_streak >= 2 ==> c.next(cfg, obs, now) == (
                Controller {
                    current_workers: (c.current_workers - 1) as i32,
                    down_streak: (c.down_streak + 1) as u32,
                    phase: Phase::Shrunk,
                    ..c
                },
                Action::RemoveWorker,
            )
        }),
{
}

/// How a tick ends: a removal is noted as the last and ends the row; then comes a rest, and
/// everything stays as it is for the next tick.
pub proof fn law_end_of_a_tick<F>(c: Controller<F>, cfg: Config, obs: Observation<F>, now: u64)
    requires
        c.wf(cfg),
    ensures
        c.phase is Shrunk ==> c.next(cfg, obs, now) == (
            Controller { last_down: now as i128, down_streak: 0, phase: Phase::Rest, ..c },
            Action::Proceed,
        ),
        c.phase is Rest ==> c.next(cfg, obs, now) == (
            Controller { phase: Phase::Start, ..c },
            Action::Sleep,
        ),
{
}

/// A surge is answered at once, whatever the durations, the demand and the idle state are: where
/// bursts are enabled, the rate is high and has risen, the waiting time since the last burst is
/// over, and there are fewer workers than there may be, the steps after the first add workers,
/// until as many were added as are set, or there are as many as there may be.
pub proof fn law_surge_is_answered_at_once<F>(
    c: Controller<F>,
    cfg: Config,
    obs: Observation<F>,
    clock: spec_fn(nat) -> u64,
    k: nat,
)
    requires
        c.wf(cfg),
        c.phase is Start,
        cfg.burst_enabled,
        obs.high,
        obs.risen,
        cfg.burst_cooldown_ms == 0 || clock(0) - c.last_burst >= cfg.burst_cooldown_ms * 1_000_000,
        k <= cfg.burst_add_workers,
        match obs.workers_gauge {
            Some(w) => if cfg.min_workers <= w <= cfg.max_workers {
                w < cfg.max_workers && w + k <= cfg.max_workers
            } else {
                c.current_workers < cfg.max_workers && c.current_workers + k <= cfg.max_workers
            },
            None => c.current_workers < cfg.max_workers && c.current_workers + k
                <= cfg.max_workers,
        },
    ensures
        forall|i: nat| 1 <= i <= k ==> #[trigger] asked(c, cfg, obs, clock, i) == Action::AddWorker,
{
    law_start_of_a_tick(c, cfg, obs, clock(0));
    law_burst_adds_at_once(c, cfg, obs, clock, k);
}

} // verus!
