use harnesssphere::policy::BreakerState;
use harnesssphere::ports::{CollectError, Criticality, ProbeResult};
use harnesssphere::runtime::{
    Batcher, CollectOutcome, ControlAction, ControlEvent, ControlLoop, FatalSignal, Origin, Registry,
    RuntimeConfig, SourceSupervisor, StartAction,
};
use std::time::Duration;

#[test]
fn runtime_defaults() {
    let c = RuntimeConfig::default();
    assert_eq!(c.channel_capacity, 4096);
    assert_eq!(c.batch_size, 512);
    assert_eq!(c.batch_interval, Duration::from_secs(5));
    assert_eq!(c.critical_threshold, 3);
}

#[test]
fn critical_persistent_failure_is_fatal() {
    let mut s = SourceSupervisor::new("host", Criticality::Critical, 3);
    assert!(matches!(s.start(ProbeResult::Ready, Origin::Boot), StartAction::Collect));
    assert!(s.after_collect(CollectOutcome::Failed(CollectError::Failed("boom".into()))).is_none());
    assert!(s.after_collect(CollectOutcome::Failed(CollectError::Failed("boom".into()))).is_none());
    let f = s.after_collect(CollectOutcome::Failed(CollectError::Failed("boom".into()))).expect("fatal");
    assert_eq!(f.source, "host");
    assert_eq!(f.reason, "collection failed: boom");
}

#[test]
fn critical_probe_fatal_ends_the_process() {
    let mut s = SourceSupervisor::new("self", Criticality::Critical, 3);
    match s.start(ProbeResult::Fatal("could not inspect own process".into()), Origin::Boot) {
        StartAction::Fatal(f) => {
            assert_eq!(f.source, "self");
            assert_eq!(f.reason, "probe fatal: could not inspect own process");
        },
        other => panic!("unexpected {other:?}"),
    }
    let t = SourceSupervisor::new("self", Criticality::Critical, 3).task_panicked().expect("fatal");
    assert_eq!(t.reason, "supervisor task panicked");
    assert!(SourceSupervisor::new("opt", Criticality::Optional, 3).task_panicked().is_none());
}

#[test]
fn optional_failure_never_kills_supervisor() {
    let mut s = SourceSupervisor::new("probe", Criticality::Optional, 1);
    for _ in 0..50 {
        assert!(s.after_collect(CollectOutcome::Panicked).is_none());
    }
    assert!(s.pause_before_collect().is_some());
    assert!(s.after_collect(CollectOutcome::Done).is_none());
    assert!(s.pause_before_collect().is_none());
}

#[test]
fn a_contained_panic_is_reported_as_such() {
    let mut s = SourceSupervisor::new("host", Criticality::Critical, 1);
    let f = s.after_collect(CollectOutcome::Panicked).expect("fatal at threshold 1");
    assert_eq!(f.reason, "panic contained in the collector");
}

#[test]
fn not_applicable_disables_at_boot_but_only_degrades_when_discovered() {
    let mut boot = SourceSupervisor::new("container", Criticality::Optional, 3);
    assert!(matches!(boot.start(ProbeResult::NotApplicable, Origin::Boot), StartAction::Disable));
    let mut found = SourceSupervisor::new("session:a/b/c/d", Criticality::Optional, 3);
    assert!(matches!(found.start(ProbeResult::NotApplicable, Origin::Discovered), StartAction::Collect));
    assert_eq!(found.pause_before_collect(), Some(Duration::from_secs(1)));
    let mut gone = SourceSupervisor::new("x", Criticality::Optional, 3);
    assert!(matches!(gone.start(ProbeResult::Unavailable("down".into()), Origin::Boot), StartAction::Collect));
    assert!(gone.pause_before_collect().is_some());
}

#[test]
fn duplicate_name_is_rejected_not_shadowed() {
    let mut c = ControlLoop::new();
    assert!(c.register_boot("host"));
    assert!(matches!(c.step(ControlEvent::Add("session:a".into())), ControlAction::Spawn(n) if n == "session:a"));
    assert!(matches!(c.step(ControlEvent::Add("session:a".into())), ControlAction::RejectDuplicate(n) if n == "session:a"));
    assert!(matches!(c.step(ControlEvent::Add("host".into())), ControlAction::RejectDuplicate(_)));
}

#[test]
fn source_added_while_running_is_collected() {
    let mut c = ControlLoop::new();
    assert!(matches!(c.step(ControlEvent::Add("session:x".into())), ControlAction::Spawn(_)));
    let names = c.shutdown();
    assert_eq!(names, vec!["session:x".to_owned()]);
}

#[test]
fn removal_emits_a_terminal_signal_then_stops() {
    let mut c = ControlLoop::new();
    c.step(ControlEvent::Add("session:x".into()));
    assert!(matches!(c.step(ControlEvent::Remove("session:x".into())), ControlAction::Retire(n) if n == "session:x"));
    assert!(matches!(c.step(ControlEvent::Remove("session:x".into())), ControlAction::NotRegistered(_)));
    assert!(matches!(c.step(ControlEvent::Add("session:x".into())), ControlAction::Spawn(_)));
}

#[test]
fn dropping_the_command_sender_does_not_stop_collection() {
    let mut c = ControlLoop::new();
    c.register_boot("host");
    assert!(matches!(c.step(ControlEvent::CommandsClosed), ControlAction::StopListening));
    assert!(!c.commands_open());
    assert_eq!(c.shutdown(), vec!["host".to_owned()]);
}

#[test]
fn fatal_and_interrupt_stop_the_loop() {
    let mut c = ControlLoop::new();
    match c.step(ControlEvent::Fatal(FatalSignal { source: "host".into(), reason: "r".into() })) {
        ControlAction::Stop(Err(f)) => assert_eq!(f.source, "host"),
        other => panic!("unexpected {other:?}"),
    }
    assert!(matches!(c.step(ControlEvent::Interrupted), ControlAction::Stop(Ok(()))));
    assert!(matches!(c.step(ControlEvent::FatalChannelClosed), ControlAction::Stop(Ok(()))));
}

#[test]
fn registry_keeps_order_and_uniqueness() {
    let mut r = Registry::new();
    assert!(r.enroll("a"));
    assert!(r.enroll("b"));
    assert!(!r.enroll("a"));
    assert!(r.contains("b"));
    assert!(r.remove("a"));
    assert!(!r.remove("a"));
    assert_eq!(r.drain(), vec!["b".to_owned()]);
}

#[test]
fn drain_batches_lose_nothing() {
    let mut b: Batcher<u32> = Batcher::new(3);
    let mut exported: Vec<u32> = Vec::new();
    for x in 0..7u32 {
        if let Some(batch) = b.push(x) {
            assert_eq!(batch.len(), 3);
            exported.extend(batch);
        }
    }
    assert_eq!(exported, vec![0, 1, 2, 3, 4, 5]);
    let t = b.tick().expect("one waiting");
    assert_eq!(t, vec![6]);
    assert!(b.tick().is_none());
    b.push(9);
    assert_eq!(b.close(), vec![9]);
    assert!(b.close().is_empty());
}

#[test]
fn breaker_setup_of_a_supervised_source() {
    let mut s = SourceSupervisor::new("n", Criticality::Critical, 2);
    s.start(ProbeResult::Unavailable("x".into()), Origin::Boot);
    let _ = BreakerState::Open;
    assert_eq!(s.pause_before_collect(), Some(Duration::from_secs(1)));
    s.after_collect(CollectOutcome::Failed(CollectError::Unavailable("u".into())));
    assert_eq!(s.pause_before_collect(), Some(Duration::from_secs(1)));
    let f = s.after_collect(CollectOutcome::Failed(CollectError::Unavailable("u".into()))).unwrap();
    assert_eq!(f.reason, "target unavailable: u");
}

#[test]
fn critical_probe_panic_is_fatal() {
    // A panic while a Critical source is being probed escapes its supervision and is
    // contained at the task: it must escalate to a fatal, never die silently.
    let sup = SourceSupervisor::new("host", Criticality::Critical, 1);
    let fatal = sup.task_panicked().expect("a Critical probe panic should be FATAL");
    assert_eq!(fatal.source, "host");
    assert_eq!(fatal.reason, "supervisor task panicked");
}
