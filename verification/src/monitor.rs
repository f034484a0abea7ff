use vstd::prelude::*;

use crate::status::{is_final_status, status_level, StatusKind};

verus! {

/// How long the backend may take to become healthy, in milliseconds.
pub const HEALTH_TIMEOUT_MS: u64 = 180_000;

/// The pause between two health checks, in milliseconds.
pub const HEALTH_INTERVAL_MS: u64 = 1200;

/// The pause between announcing readiness and opening the console, in milliseconds.
pub const READY_PAUSE_MS: u64 = 500;

/// Where the start-up monitor stands; each phase but `Launch` and `Done` waits
/// for one kind of observation.
#[derive(Clone, Copy, Debug, PartialEq, Eq, Structural)]
pub enum MonitorPhase {
    /// Nothing has happened yet.
    Launch,
    /// Waits for the time elapsed since the monitor started.
    Clock,
    /// Waits for whether the backend process has exited.
    ExitCheck,
    /// Waits for the outcome of a health check.
    HealthCheck,
    /// Start-up is over.
    Done,
}

/// What the caller of the monitor has found out.
#[derive(Clone, Copy, Debug, PartialEq, Eq, Structural)]
pub enum Observation {
    Nothing,
    Elapsed(u64),
    Exited(bool),
    Healthy(bool),
}

/// What the monitor asks its caller to do, in order.
#[derive(Clone, Copy, Debug, PartialEq, Eq, Structural)]
pub enum Effect {
    /// Show the status of this stage on the start page.
    Emit(StatusKind),
    /// Wait this many milliseconds.
    Sleep(u64),
    /// Open the admin console in the main window.
    Navigate,
}

/// One step of the monitor: the phase it moves to and what is to be done.
pub struct MonitorStep {
    pub next: MonitorPhase,
    pub effects: Vec<Effect>,
}

/// The monitor's rules. It first announces the launch; then, until the
/// deadline passes, it checks whether the backend has exited (a failure) and
/// otherwise whether it is healthy (then it announces readiness, pauses and
/// opens the console), and else announces that it waits and pauses for the
/// interval. Past the deadline it announces the time-out. An observation of
/// another kind than the phase waits for changes nothing.
pub open spec fn monitor_transition(phase: MonitorPhase, obs: Observation) -> (
    MonitorPhase,
    Seq<Effect>,
) {
    match (phase, obs) {
        (MonitorPhase::Launch, _) => (
            MonitorPhase::Clock,
            seq![Effect::Emit(StatusKind::Launching)],
        ),
        (MonitorPhase::Clock, Observation::Elapsed(ms)) => if ms >= HEALTH_TIMEOUT_MS {
            (MonitorPhase::Done, seq![Effect::Emit(StatusKind::TimedOut)])
        } else {
            (MonitorPhase::ExitCheck, seq![])
        },
        (MonitorPhase::ExitCheck, Observation::Exited(exited)) => if exited {
            (MonitorPhase::Done, seq![Effect::Emit(StatusKind::Crashed)])
        } else {
            (MonitorPhase::HealthCheck, seq![])
        },
        (MonitorPhase::HealthCheck, Observation::Healthy(healthy)) => if healthy {
            (
                MonitorPhase::Done,
                seq![
                    Effect::Emit(StatusKind::Ready),
                    Effect::Sleep(READY_PAUSE_MS),
                    Effect::Navigate,
                ],
            )
        } else {
            (
                MonitorPhase::Clock,
                seq![Effect::Emit(StatusKind::Waiting), Effect::Sleep(HEALTH_INTERVAL_MS)],
            )
        },
        _ => (phase, seq![]),
    }
}

/// One step of the start-up monitor (see [`monitor_transition`]).
pub fn monitor_step(phase: MonitorPhase, obs: Observation) -> (r: MonitorStep)
    ensures
        (r.next, r.effects@) == monitor_transition(phase, obs),
{
    let (next, effects) = match (phase, obs) {
        (MonitorPhase::Launch, _) => (MonitorPhase::Clock, vec![Effect::Emit(StatusKind::Launching)]),
        (MonitorPhase::Clock, Observation::Elapsed(ms)) => {
            if ms >= HEALTH_TIMEOUT_MS {
                (MonitorPhase::Done, vec![Effect::Emit(StatusKind::TimedOut)])
            } else {
                (MonitorPhase::ExitCheck, vec![])
            }
        },
        (MonitorPhase::ExitCheck, Observation::Exited(exited)) => {
            if exited {
                (MonitorPhase::Done, vec![Effect::Emit(StatusKind::Crashed)])
            } else {
                (MonitorPhase::HealthCheck, vec![])
            }
        },
        (MonitorPhase::HealthCheck, Observation::Healthy(healthy)) => {
            if healthy {
                (
                    MonitorPhase::Done,
                    vec![
                        Effect::Emit(StatusKind::Ready),
                        Effect::Sleep(READY_PAUSE_MS),
                        Effect::Navigate,
                    ],
                )
            } else {
                (
                    MonitorPhase::Clock,
                    vec![Effect::Emit(StatusKind::Waiting), Effect::Sleep(HEALTH_INTERVAL_MS)],
                )
            }
        },
        _ => (phase, vec![]),
    };
    let r = MonitorStep { next, effects };
    assert(r.effects@ =~= monitor_transition(phase, obs).1);
    r
}


/// The phases and effects of the monitor fed the observations `obs` in turn.
pub open spec fn monitor_run(phase: MonitorPhase, obs: Seq<Observation>) -> (
    MonitorPhase,
    Seq<Effect>,
)
    decreases obs.len(),
{
    if obs.len() == 0 {
        (phase, seq![])
    } else {
        let (p1, e1) = monitor_transition(phase, obs[0]);
        let (p2, e2) = monitor_run(p1, obs.drop_first());
        (p2, e1 + e2)
    }
}

pub open spec fn is_final_emit(e: Effect) -> bool {
    e matches Effect::Emit(k) && is_final_status(k)
}

/// How many final statuses `es` announces.
pub open spec fn final_count(es: Seq<Effect>) -> nat
    decreases es.len(),
{
    if es.len() == 0 {
        0
    } else {
        final_count(es.drop_last()) + if is_final_emit(es.last()) {
            1nat
        } else {
            0nat
        }
    }
}

proof fn lemma_final_count_concat(a: Seq<Effect>, b: Seq<Effect>)
    ensures
        final_count(a + b) == final_count(a) + final_count(b),
    decreases b.len(),
{
    if b.len() == 0 {
        assert(a + b =~= a);
    } else {
        lemma_final_count_concat(a, b.drop_last());
        assert((a + b).drop_last() =~= a + b.drop_last());
        assert((a + b).last() == b.last());
    }
}

/// Once start-up is over, the monitor stays done and asks for nothing more.
pub proof fn lemma_done_stays_done(obs: Seq<Observation>)
    ensures
        monitor_run(MonitorPhase::Done, obs) == (MonitorPhase::Done, Seq::<Effect>::empty()),
    decreases obs.len(),
{
    if obs.len() > 0 {
        lemma_done_stays_done(obs.drop_first());
        assert(Seq::<Effect>::empty() + Seq::<Effect>::empty() =~= Seq::<Effect>::empty());
    }
}

/// Whatever it observes, the monitor announces a final status (crash, time-out
/// or readiness) exactly once if start-up ends, and never otherwise.
pub proof fn lemma_one_final_status(phase: MonitorPhase, obs: Seq<Observation>)
    ensures
        final_count(monitor_run(phase, obs).1) == if phase != MonitorPhase::Done
            && monitor_run(phase, obs).0 == MonitorPhase::Done {
            1nat
        } else {
            0nat
        },
    decreases obs.len(),
{
    if obs.len() == 0 {
    } else {
        let (p1, e1) = monitor_transition(phase, obs[0]);
        lemma_one_final_status(p1, obs.drop_first());
        lemma_final_count_concat(e1, monitor_run(p1, obs.drop_first()).1);
        reveal_with_fuel(final_count, 4);
        if p1 == MonitorPhase::Done {
            lemma_done_stays_done(obs.drop_first());
        }
    }
}

/// No status at all is announced after a final one.
pub open spec fn no_emit_after_final(es: Seq<Effect>) -> bool {
    forall|i: int, j: int|
        0 <= i < j < es.len() && is_final_emit(#[trigger] es[i]) ==> !(#[trigger] es[j] is Emit)
}

/// Whatever it observes, the monitor announces the launch first, then only
/// pending stages, and a final status (crash, time-out or readiness), if it
/// announces one, is the last status of the run.
pub proof fn lemma_final_status_is_last(phase: MonitorPhase, obs: Seq<Observation>)
    ensures
        no_emit_after_final(monitor_run(phase, obs).1),
        phase == MonitorPhase::Launch && obs.len() > 0 ==> monitor_run(phase, obs).1[0]
            == Effect::Emit(StatusKind::Launching),
        forall|i: int|
            0 <= i < monitor_run(phase, obs).1.len() && #[trigger] monitor_run(phase, obs).1[i] is Emit
                ==> (status_level(monitor_run(phase, obs).1[i]->Emit_0) == "pending"@
                <==> !is_final_status(monitor_run(phase, obs).1[i]->Emit_0)),
    decreases obs.len(),
{
    if obs.len() > 0 {
        let (p1, e1) = monitor_transition(phase, obs[0]);
        let rest = obs.drop_first();
        let e2 = monitor_run(p1, rest).1;
        let es = monitor_run(phase, obs).1;
        assert(es == e1 + e2);
        lemma_final_status_is_last(p1, rest);
        let has_final = exists|i: int| 0 <= i < e1.len() && is_final_emit(#[trigger] e1[i]);
        if has_final {
            assert(p1 == MonitorPhase::Done);
            lemma_done_stays_done(rest);
            assert(es =~= e1);
        }
        assert forall|i: int, j: int|
            0 <= i < j < es.len() && is_final_emit(#[trigger] es[i]) implies !(#[trigger] es[j] is Emit) by {
            if i < e1.len() {
                assert(es[i] == e1[i]);
                assert(has_final);
                assert(j < e1.len());
                assert(es[j] == e1[j]);
            } else {
                assert(es[i] == e2[i - e1.len()]);
                assert(es[j] == e2[j - e1.len()]);
            }
        }
        if phase == MonitorPhase::Launch {
            assert(es[0] == e1[0]);
        }
    }
    assert forall|k: StatusKind| (status_level(k) == "pending"@ <==> !is_final_status(k)) by {
        reveal_strlit("pending");
        reveal_strlit("error");
        reveal_strlit("ready");
        assert("error"@.len() != "pending"@.len());
        assert("ready"@.len() != "pending"@.len());
        match k {
            StatusKind::Crashed => {},
            StatusKind::TimedOut => {},
            StatusKind::Ready => {},
            _ => {},
        }
    }
}

/// Whether `obs` is of the kind that `phase` waits for.
pub open spec fn fits_phase(phase: MonitorPhase, obs: Observation) -> bool {
    match phase {
        MonitorPhase::Clock => obs is Elapsed,
        MonitorPhase::ExitCheck => obs is Exited,
        MonitorPhase::HealthCheck => obs is Healthy,
        _ => true,
    }
}

/// The milliseconds that `es` asks to sleep.
pub open spec fn sleep_total(es: Seq<Effect>) -> nat
    decreases es.len(),
{
    if es.len() == 0 {
        0
    } else {
        sleep_total(es.drop_last()) + match es.last() {
            Effect::Sleep(ms) => ms as nat,
            _ => 0nat,
        }
    }
}

/// The monitor is fed what each phase waits for, and every clock reading is
/// at least the time it has asked to sleep so far (`slept` before `obs`): the
/// clock does not run slower than the pauses.
pub open spec fn fed_in_time(phase: MonitorPhase, obs: Seq<Observation>, slept: nat) -> bool
    decreases obs.len(),
{
    obs.len() == 0 || {
        let o = obs[0];
        let (p1, e1) = monitor_transition(phase, o);
        &&& fits_phase(phase, o)
        &&& (o matches Observation::Elapsed(ms) ==> ms >= slept)
        &&& fed_in_time(p1, obs.drop_first(), slept + sleep_total(e1))
    }
}

/// How many steps the monitor can still take, after sleeping `slept`
/// milliseconds, before the deadline ends start-up.
pub open spec fn steps_left(phase: MonitorPhase, slept: nat) -> nat
    decreases
            (if slept < HEALTH_TIMEOUT_MS {
                HEALTH_TIMEOUT_MS - slept
            } else {
                0
            }) as nat,
            (if phase == MonitorPhase::Launch {
                2nat
            } else if phase == MonitorPhase::Clock {
                0nat
            } else {
                1nat
            }),
{
    match phase {
        MonitorPhase::Done => 0,
        MonitorPhase::Launch => 1 + steps_left(MonitorPhase::Clock, slept),
        MonitorPhase::Clock => if slept >= HEALTH_TIMEOUT_MS {
            1
        } else {
            3 + steps_left(MonitorPhase::Clock, (slept + HEALTH_INTERVAL_MS) as nat)
        },
        MonitorPhase::ExitCheck => if slept >= HEALTH_TIMEOUT_MS {
            3
        } else {
            2 + steps_left(MonitorPhase::Clock, (slept + HEALTH_INTERVAL_MS) as nat)
        },
        MonitorPhase::HealthCheck => if slept >= HEALTH_TIMEOUT_MS {
            2
        } else {
            1 + steps_left(MonitorPhase::Clock, (slept + HEALTH_INTERVAL_MS) as nat)
        },
    }
}

/// Start-up always ends in time: fed what its phases wait for by a clock that
/// runs no slower than its pauses, the monitor is done after at most
/// [`steps_left`] steps, having then announced exactly one final status if it
/// was not done already.
pub proof fn lemma_monitor_ends_in_time(phase: MonitorPhase, obs: Seq<Observation>, slept: nat)
    requires
        fed_in_time(phase, obs, slept),
        obs.len() >= steps_left(phase, slept),
    ensures
        monitor_run(phase, obs).0 == MonitorPhase::Done,
        final_count(monitor_run(phase, obs).1) == if phase == MonitorPhase::Done {
            0nat
        } else {
            1nat
        },
    decreases obs.len(),
{
    lemma_one_final_status(phase, obs);
    if phase == MonitorPhase::Done {
        lemma_done_stays_done(obs);
    } else {
        assert(obs.len() > 0);
        let o = obs[0];
        let (p1, e1) = monitor_transition(phase, o);
        let rest = obs.drop_first();
        reveal_with_fuel(sleep_total, 4);
        if p1 == MonitorPhase::Done {
            lemma_done_stays_done(rest);
        } else {
            match phase {
                MonitorPhase::Launch => {
                    assert(sleep_total(e1) == 0);
                },
                MonitorPhase::Clock => {
                    assert(sleep_total(e1) == 0);
                    assert(slept < HEALTH_TIMEOUT_MS);
                },
                MonitorPhase::ExitCheck => {
                    assert(sleep_total(e1) == 0);
                },
                _ => {
                    assert(sleep_total(e1) == HEALTH_INTERVAL_MS);
                },
            }
            lemma_monitor_ends_in_time(p1, rest, slept + sleep_total(e1));
        }
    }
}

/// The console is opened only right after the backend was found healthy,
/// after readiness is announced and the pause is over, and start-up then ends.
pub proof fn lemma_navigate_only_when_ready(phase: MonitorPhase, obs: Observation)
    ensures
        monitor_transition(phase, obs).1.contains(Effect::Navigate) ==> {
            &&& phase == MonitorPhase::HealthCheck
            &&& obs == Observation::Healthy(true)
            &&& monitor_transition(phase, obs) == (
                MonitorPhase::Done,
                seq![
                    Effect::Emit(StatusKind::Ready),
                    Effect::Sleep(READY_PAUSE_MS),
                    Effect::Navigate,
                ],
            )
        },
{
    let es = monitor_transition(phase, obs).1;
    if es.contains(Effect::Navigate) {
        let i = choose|i: int| 0 <= i < es.len() && es[i] == Effect::Navigate;
        assert(es[i] == Effect::Navigate);
    }
}

/// The grace period a stopping backend gets before it is killed, in milliseconds.
pub const STOP_GRACE_MS: u64 = 3000;

/// The pause between two looks at a stopping backend, in milliseconds.
pub const STOP_POLL_MS: u64 = 120;

/// What a look at the backend process (`try_wait`) found.
#[derive(Clone, Copy, Debug, PartialEq, Eq, Structural)]
pub enum WaitStatus {
    Exited,
    Running,
    Failed,
}

/// Where stopping the backend stands.
#[derive(Clone, Copy, Debug, PartialEq, Eq, Structural)]
pub enum StopPhase {
    /// Waits for the time elapsed since stopping began.
    Clock,
    /// Waits for a look at the process.
    Probe,
    Done,
}

#[derive(Clone, Copy, Debug, PartialEq, Eq, Structural)]
pub enum StopObservation {
    Elapsed(u64),
    Wait(WaitStatus),
}

#[derive(Clone, Copy, Debug, PartialEq, Eq, Structural)]
pub enum StopEffect {
    Sleep(u64),
    /// Kill the process and wait for it.
    Kill,
}

/// The rules for stopping the backend: within the grace period, look at the
/// process; if it has exited, stop there; if it runs, pause and look again;
/// if the look fails, or the grace period is over, kill it.
pub open spec fn stop_transition(phase: StopPhase, obs: StopObservation) -> (StopPhase, Option<
    StopEffect,
>) {
    match (phase, obs) {
        (StopPhase::Clock, StopObservation::Elapsed(ms)) => if ms < STOP_GRACE_MS {
            (StopPhase::Probe, None)
        } else {
            (StopPhase::Done, Some(StopEffect::Kill))
        },
        (StopPhase::Probe, StopObservation::Wait(status)) => match status {
            WaitStatus::Exited => (StopPhase::Done, None),
            WaitStatus::Running => (StopPhase::Clock, Some(StopEffect::Sleep(STOP_POLL_MS))),
            WaitStatus::Failed => (StopPhase::Done, Some(StopEffect::Kill)),
        },
        _ => (phase, None),
    }
}

/// One step of stopping the backend (see [`stop_transition`]).
pub fn stop_step(phase: StopPhase, obs: StopObservation) -> (r: (StopPhase, Option<StopEffect>))
    ensures
        r == stop_transition(phase, obs),
{
    match (phase, obs) {
        (StopPhase::Clock, StopObservation::Elapsed(ms)) => {
            if ms < STOP_GRACE_MS {
                (StopPhase::Probe, None)
            } else {
                (StopPhase::Done, Some(StopEffect::Kill))
            }
        },
        (StopPhase::Probe, StopObservation::Wait(status)) => match status {
            WaitStatus::Exited => (StopPhase::Done, None),
            WaitStatus::Running => (StopPhase::Clock, Some(StopEffect::Sleep(STOP_POLL_MS))),
            WaitStatus::Failed => (StopPhase::Done, Some(StopEffect::Kill)),
        },
        _ => (phase, None),
    }
}

/// What looking at the shared backend handle found.
#[derive(Clone, Copy, Debug, PartialEq, Eq, Structural)]
pub enum ChildProbe {
    /// The lock around the handle was poisoned.
    LockPoisoned,
    /// The handle was already taken away.
    NoChild,
    /// `try_wait` reported an exit status.
    Exited,
    /// `try_wait` reported that the process runs.
    Running,
    /// `try_wait` failed.
    ProbeFailed,
}

/// Whether the backend counts as gone: it has exited, or its handle cannot be
/// had. A failed look does not count as an exit.
pub fn backend_has_exited(probe: ChildProbe) -> (r: bool)
    ensures
        r == (probe == ChildProbe::LockPoisoned || probe == ChildProbe::NoChild || probe
            == ChildProbe::Exited),
{
    match probe {
        ChildProbe::LockPoisoned => true,
        ChildProbe::NoChild => true,
        ChildProbe::Exited => true,
        ChildProbe::Running => false,
        ChildProbe::ProbeFailed => false,
    }
}


/// The phases and effects of stopping the backend fed the observations `obs` in turn.
pub open spec fn stop_run(phase: StopPhase, obs: Seq<StopObservation>) -> (StopPhase, Seq<StopEffect>)
    decreases obs.len(),
{
    if obs.len() == 0 {
        (phase, seq![])
    } else {
        let (p1, e1) = stop_transition(phase, obs[0]);
        let (p2, e2) = stop_run(p1, obs.drop_first());
        let first = match e1 {
            Some(e) => seq![e],
            None => seq![],
        };
        (p2, first + e2)
    }
}

pub open spec fn kill_count(es: Seq<StopEffect>) -> nat
    decreases es.len(),
{
    if es.len() == 0 {
        0
    } else {
        (if es[0] == StopEffect::Kill {
            1nat
        } else {
            0nat
        }) + kill_count(es.drop_first())
    }
}

/// Stopping the backend kills it at most once, and only as its last act:
/// after a kill, stopping is over and nothing more happens.
pub proof fn lemma_kill_at_most_once(phase: StopPhase, obs: Seq<StopObservation>)
    ensures
        phase == StopPhase::Done ==> stop_run(phase, obs) == (StopPhase::Done, Seq::<StopEffect>::empty()),
        kill_count(stop_run(phase, obs).1) <= 1,
        kill_count(stop_run(phase, obs).1) == 1 ==> stop_run(phase, obs).0 == StopPhase::Done,
    decreases obs.len(),
{
    if obs.len() > 0 {
        let (p1, e1) = stop_transition(phase, obs[0]);
        lemma_kill_at_most_once(p1, obs.drop_first());
        let rest = stop_run(p1, obs.drop_first());
        let first: Seq<StopEffect> = match e1 {
            Some(e) => seq![e],
            None => seq![],
        };
        let all = first + rest.1;
        if phase == StopPhase::Done {
            assert(all =~= Seq::<StopEffect>::empty());
        }
        if first.len() == 0 {
            assert(all =~= rest.1);
        } else {
            assert(all[0] == first[0]);
            assert(all.drop_first() =~= rest.1);
            if e1 == Some(StopEffect::Kill) {
                assert(p1 == StopPhase::Done);
                assert(rest.1 =~= Seq::<StopEffect>::empty());
            }
        }
    }
}

} // verus!
