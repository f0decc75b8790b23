use marrow_run::host::{error_log_line, log_line, no_capability_message, Capability, Host, LogLevel};
use marrow_run::session::{
    after_auto_apply_probe, plan_dry_run, plan_run_session, DryRunPlan, ProbeNext, ProbeOutcome,
    ProjectSessionNotice, RunObligation, RunSessionRefusal, RunStorePolicy, StoreOpening,
};
use marrow_run::text::{join, split};

#[test]
fn dry_runs_probe_only_data_free_changes() {
    assert_eq!(
        plan_dry_run(&RunObligation::ZeroMutation, 2, 3),
        (ProjectSessionNotice::DryRunWouldApply { from_epoch: 2, to_epoch: 3 }, DryRunPlan::ProbeAutoApply)
    );
    let (notice, plan) = plan_dry_run(&RunObligation::Repair, 2, 3);
    assert_eq!(plan, DryRunPlan::Fence);
    assert!(matches!(notice, ProjectSessionNotice::DryRunWouldFence { message } if message.contains("required repair")));
    assert_eq!(after_auto_apply_probe(ProbeOutcome::Applied), ProbeNext::RecheckIsolated);
    assert!(matches!(
        after_auto_apply_probe(ProbeOutcome::MustFence(RunObligation::Backfill { records: 4 })),
        ProbeNext::FinishOpen(ProjectSessionNotice::DryRunWouldFence { message }) if message.contains("backfills 4")
    ));
    assert!(matches!(after_auto_apply_probe(ProbeOutcome::StoreChanged), ProbeNext::Drift(m) if m.starts_with("store changed")));
}

#[test]
fn run_sessions_need_an_entry_and_isolation_for_admissions() {
    assert_eq!(plan_run_session(None, None, RunStorePolicy::Commit, false), Err(RunSessionRefusal::NoEntry));
    assert_eq!(
        plan_run_session(Some("main".into()), Some("other".into()), RunStorePolicy::Commit, true),
        Err(RunSessionRefusal::AdmissionNeedsIsolation)
    );
    assert_eq!(
        plan_run_session(None, Some("other".into()), RunStorePolicy::Isolated, true),
        Ok(("other".to_string(), StoreOpening::ProjectStore { isolate_writes: true }))
    );
    assert_eq!(
        plan_run_session(Some("main".into()), None, RunStorePolicy::FreshMemory, false),
        Ok(("main".to_string(), StoreOpening::FreshMemory))
    );
}

#[test]
fn host_capabilities_answer_or_refuse() {
    let host = Host::new();
    assert_eq!(host.clock_now(), Err(Capability::Clock));
    assert_eq!(host.clock_today(), Err(Capability::Clock));
    assert_eq!(host.log_sink().err(), Some(Capability::Log));
    let day: i128 = 86_400_000_000_000;
    let host = host.with_clock(3 * day + 5);
    assert_eq!(host.clock_now(), Ok(3 * day + 5));
    assert_eq!(host.clock_today(), Ok(3));
    assert_eq!(Host::new().with_clock(-1).clock_today(), Ok(-1));
    assert_eq!(Host::new().with_clock(-day).clock_today(), Ok(-1));
    assert_eq!(
        no_capability_message(Capability::Clock, "clock", "now"),
        "this run provides no clock capability for `std::clock::now`"
    );
    assert_eq!(log_line(LogLevel::Warn, "careful"), "WARN careful\n");
    assert_eq!(error_log_line("app.bad", "boom"), "ERROR [app.bad] boom\n");
}

#[test]
fn join_undoes_split() {
    for (text, sep) in [("a,b,,c", ","), ("", ";"), ("xx", "x"), ("abc", "abc")] {
        assert_eq!(join(&split(text, sep), sep), text);
    }
}
