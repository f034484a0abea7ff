use codex2api_desktop::monitor::{
    backend_has_exited, monitor_step, stop_step, ChildProbe, Effect, MonitorPhase, Observation,
    StopEffect, StopObservation, StopPhase, WaitStatus, HEALTH_INTERVAL_MS, HEALTH_TIMEOUT_MS,
    READY_PAUSE_MS,
};
use codex2api_desktop::status::StatusKind;
use codex2api_desktop::tray::{anyhow, menu_action, tray_event_reveals, MenuAction, TrayPointer};

fn run(mut phase: MonitorPhase, obs: &[Observation]) -> (MonitorPhase, Vec<Effect>) {
    let mut all = Vec::new();
    for o in obs {
        let step = monitor_step(phase, *o);
        phase = step.next;
        all.extend(step.effects);
    }
    (phase, all)
}

#[test]
fn monitor_ready_path() {
    let (phase, effects) = run(
        MonitorPhase::Launch,
        &[
            Observation::Nothing,
            Observation::Elapsed(0),
            Observation::Exited(false),
            Observation::Healthy(false),
            Observation::Elapsed(1300),
            Observation::Exited(false),
            Observation::Healthy(true),
        ],
    );
    assert_eq!(phase, MonitorPhase::Done);
    assert_eq!(
        effects,
        vec![
            Effect::Emit(StatusKind::Launching),
            Effect::Emit(StatusKind::Waiting),
            Effect::Sleep(1200),
            Effect::Emit(StatusKind::Ready),
            Effect::Sleep(500),
            Effect::Navigate,
        ]
    );
    assert_eq!(HEALTH_INTERVAL_MS, 1200);
    assert_eq!(READY_PAUSE_MS, 500);
}

#[test]
fn monitor_crash_path() {
    let (phase, effects) = run(
        MonitorPhase::Clock,
        &[Observation::Elapsed(5), Observation::Exited(true), Observation::Healthy(true)],
    );
    assert_eq!(phase, MonitorPhase::Done);
    assert_eq!(effects, vec![Effect::Emit(StatusKind::Crashed)]);
}

#[test]
fn monitor_timeout() {
    assert_eq!(HEALTH_TIMEOUT_MS, 180_000);
    let step = monitor_step(MonitorPhase::Clock, Observation::Elapsed(180_000));
    assert_eq!(step.next, MonitorPhase::Done);
    assert_eq!(step.effects, vec![Effect::Emit(StatusKind::TimedOut)]);
    let step = monitor_step(MonitorPhase::Clock, Observation::Elapsed(179_999));
    assert_eq!(step.next, MonitorPhase::ExitCheck);
    assert!(step.effects.is_empty());
}

#[test]
fn monitor_ignores_mismatched_observations() {
    let step = monitor_step(MonitorPhase::ExitCheck, Observation::Healthy(true));
    assert_eq!(step.next, MonitorPhase::ExitCheck);
    assert!(step.effects.is_empty());
    let step = monitor_step(MonitorPhase::Clock, Observation::Nothing);
    assert_eq!(step.next, MonitorPhase::Clock);
}

#[test]
fn monitor_done_stays_done() {
    let (phase, effects) = run(
        MonitorPhase::Done,
        &[Observation::Elapsed(0), Observation::Exited(true), Observation::Healthy(true), Observation::Nothing],
    );
    assert_eq!(phase, MonitorPhase::Done);
    assert!(effects.is_empty());
}

#[test]
fn stop_waits_then_returns_on_exit() {
    assert_eq!(stop_step(StopPhase::Clock, StopObservation::Elapsed(0)), (StopPhase::Probe, None));
    assert_eq!(
        stop_step(StopPhase::Probe, StopObservation::Wait(WaitStatus::Running)),
        (StopPhase::Clock, Some(StopEffect::Sleep(120)))
    );
    assert_eq!(stop_step(StopPhase::Probe, StopObservation::Wait(WaitStatus::Exited)), (StopPhase::Done, None));
}

#[test]
fn stop_kills_after_grace_or_failure() {
    assert_eq!(
        stop_step(StopPhase::Clock, StopObservation::Elapsed(3000)),
        (StopPhase::Done, Some(StopEffect::Kill))
    );
    assert_eq!(stop_step(StopPhase::Clock, StopObservation::Elapsed(2999)), (StopPhase::Probe, None));
    assert_eq!(
        stop_step(StopPhase::Probe, StopObservation::Wait(WaitStatus::Failed)),
        (StopPhase::Done, Some(StopEffect::Kill))
    );
    assert_eq!(stop_step(StopPhase::Done, StopObservation::Elapsed(0)), (StopPhase::Done, None));
}

#[test]
fn exit_probe_outcomes() {
    assert!(backend_has_exited(ChildProbe::LockPoisoned));
    assert!(backend_has_exited(ChildProbe::NoChild));
    assert!(backend_has_exited(ChildProbe::Exited));
    assert!(!backend_has_exited(ChildProbe::Running));
    assert!(!backend_has_exited(ChildProbe::ProbeFailed));
}

#[test]
fn menu_entries() {
    assert_eq!(menu_action("show"), MenuAction::ShowWindow);
    assert_eq!(menu_action("open-admin"), MenuAction::OpenAdmin);
    assert_eq!(menu_action("quit"), MenuAction::Quit);
    assert_eq!(menu_action("Quit"), MenuAction::Ignore);
    assert_eq!(menu_action("quit "), MenuAction::Ignore);
    assert_eq!(menu_action(""), MenuAction::Ignore);
}

#[test]
fn tray_left_release_reveals() {
    assert!(tray_event_reveals(TrayPointer::Click { left: true, up: true }));
    assert!(!tray_event_reveals(TrayPointer::Click { left: true, up: false }));
    assert!(!tray_event_reveals(TrayPointer::Click { left: false, up: true }));
    assert!(!tray_event_reveals(TrayPointer::Other));
}

#[test]
fn anyhow_keeps_message() {
    assert_eq!(anyhow("未找到主窗口"), "未找到主窗口");
}

#[test]
fn stop_run_kills_once_at_most() {
    let mut phase = StopPhase::Clock;
    let mut kills = 0;
    let obs = [
        StopObservation::Elapsed(0),
        StopObservation::Wait(WaitStatus::Running),
        StopObservation::Elapsed(3500),
        StopObservation::Elapsed(4000),
        StopObservation::Wait(WaitStatus::Failed),
    ];
    for o in obs {
        let (next, effect) = stop_step(phase, o);
        if effect == Some(StopEffect::Kill) {
            kills += 1;
        }
        phase = next;
    }
    assert_eq!(kills, 1);
    assert_eq!(phase, StopPhase::Done);
}

#[test]
fn final_status_is_the_last_one() {
    let (phase, effects) = run(
        MonitorPhase::Launch,
        &[
            Observation::Nothing,
            Observation::Elapsed(0),
            Observation::Exited(false),
            Observation::Healthy(false),
            Observation::Elapsed(180_001),
            Observation::Elapsed(0),
            Observation::Exited(true),
            Observation::Healthy(true),
        ],
    );
    assert_eq!(phase, MonitorPhase::Done);
    let emitted: Vec<StatusKind> = effects
        .iter()
        .filter_map(|e| match e {
            Effect::Emit(k) => Some(*k),
            _ => None,
        })
        .collect();
    assert_eq!(emitted, vec![StatusKind::Launching, StatusKind::Waiting, StatusKind::TimedOut]);
}

#[test]
fn monitor_ends_when_clock_keeps_up_with_pauses() {
    let mut phase = MonitorPhase::Launch;
    let mut slept: u64 = 0;
    let mut steps = 0;
    let mut finals = 0;
    while phase != MonitorPhase::Done {
        let obs = match phase {
            MonitorPhase::Clock => Observation::Elapsed(slept),
            MonitorPhase::ExitCheck => Observation::Exited(false),
            MonitorPhase::HealthCheck => Observation::Healthy(false),
            _ => Observation::Nothing,
        };
        let step = monitor_step(phase, obs);
        for e in &step.effects {
            match e {
                Effect::Sleep(ms) => slept += ms,
                Effect::Emit(StatusKind::TimedOut) | Effect::Emit(StatusKind::Crashed) | Effect::Emit(StatusKind::Ready) => finals += 1,
                _ => {}
            }
        }
        phase = step.next;
        steps += 1;
    }
    assert_eq!(steps, 452);
    assert_eq!(finals, 1);
}
