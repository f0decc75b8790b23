use std::cell::RefCell;
use std::collections::HashMap;
use std::rc::Rc;

use marrow_run::clock::{add_days, days_between, require_supported_date, ClockDatePart, MAX_SUPPORTED_DATE, MIN_SUPPORTED_DATE};
use marrow_run::host::{entropy_from_be_bytes, FixedNondeterminism, Frame, Host, ModuleSource, Nondeterminism};
use marrow_run::output::{emit_output, OutputKind, RunOutputSink};
use marrow_run::session::{
    fence_message, ExecutionBoundaryStoreKind, ExecutionSessionKind, ExecutionStoreBoundary,
    ProjectMode, ProjectSessionNotice, RunObligation, StoreStamp,
};
use marrow_run::surface::{SurfaceCollectionReadShape, SurfaceMaterializationBudget, SurfaceNodeReadShape, SURFACE_MAX_MATERIALIZED_BYTES};

#[test]
fn fixed_nondeterminism_reports_its_values() {
    let mut fixed = FixedNondeterminism::new(-5, 42);
    assert_eq!(fixed.now_nanos(), -5);
    assert_eq!(fixed.entropy_u128(), 42);
    assert_eq!(fixed.entropy_u128(), 42);
}

#[test]
fn host_builders_grant_one_capability_each() {
    let host = Host::new();
    assert_eq!(host.clock(), None);
    assert!(!host.filesystem());
    let host = host.with_clock(7).with_filesystem();
    assert_eq!(host.clock(), Some(7));
    assert!(host.filesystem());
    assert!(!host.maintenance());
    let host = host.with_maintenance().with_nondeterminism(&FixedNondeterminism::new(99, 0));
    assert_eq!(host.clock(), Some(99));
    assert!(host.maintenance());
    let sink = Rc::new(RefCell::new(String::new()));
    let mut vars = HashMap::new();
    vars.insert("A".to_string(), "1".to_string());
    let host = host.with_log_sink(sink).with_environment(vars);
    assert!(host.filesystem());
    assert_eq!(host.clock(), Some(99));
    let default_host: Host = Default::default();
    assert_eq!(default_host.clock(), None);
}

#[test]
fn entropy_bytes_read_big_endian() {
    let mut bytes = [0u8; 16];
    bytes[15] = 1;
    bytes[0] = 0x80;
    assert_eq!(entropy_from_be_bytes(bytes), u128::from_be_bytes(bytes));
    assert_eq!(entropy_from_be_bytes([0xff; 16]), u128::MAX);
}

#[test]
fn frames_find_their_source_file() {
    let modules = vec![
        ModuleSource { name: "app".into(), source_file: "src/app.mw".into() },
        ModuleSource { name: "lib".into(), source_file: "src/lib.mw".into() },
        ModuleSource { name: "lib".into(), source_file: "other.mw".into() },
    ];
    let frame = Frame::new(2, "lib".into(), modules.clone());
    assert_eq!(frame.depth(), 2);
    assert_eq!(frame.file(), Some("src/lib.mw"));
    let lost = Frame::new(1, "none".into(), modules);
    assert_eq!(lost.file(), None);
}

#[test]
fn notices_and_fences_render() {
    assert_eq!(
        ProjectSessionNotice::AutoApplied { from_epoch: 3, to_epoch: 10 }.message(),
        "auto-applied evolution: catalog epoch 3 -> 10"
    );
    assert_eq!(
        ProjectSessionNotice::DryRunWouldFreeze.message(),
        "dry run: would freeze accepted catalog identity"
    );
    assert_eq!(
        ProjectSessionNotice::DryRunWouldApply { from_epoch: 0, to_epoch: u64::MAX }.message(),
        format!("dry run: would apply evolution: catalog epoch 0 -> {}", u64::MAX)
    );
    assert_eq!(
        ProjectSessionNotice::DryRunWouldFence { message: "m".into() }.message(),
        "dry run: would fence: m"
    );
    let base = "store was stamped under a different schema at this catalog epoch";
    assert_eq!(fence_message(&RunObligation::ZeroMutation), base);
    assert_eq!(
        fence_message(&RunObligation::Backfill { records: 12 }),
        format!("{base}; the change backfills 12 record(s). Run `marrow evolve apply` to discharge it.")
    );
    assert_eq!(
        fence_message(&RunObligation::DestructiveDrop { populated: 1 }),
        format!("{base}; the change drops 1 populated record(s). Run `marrow evolve apply --maintenance` and confirm the retire to discharge it.")
    );
    assert!(fence_message(&RunObligation::Repair).ends_with("to see the required repair."));
    assert!(fence_message(&RunObligation::Transform { records: 0 }).contains("rewrites 0 record(s)"));
}

#[test]
fn boundary_values_compare_by_fields() {
    let stamp = StoreStamp { store_uid: "u".into(), catalog_epoch: 1, commit_id: 2 };
    let boundary = ExecutionStoreBoundary { kind: ExecutionBoundaryStoreKind::Isolated, stamp: Some(stamp.clone()) };
    assert_eq!(boundary.stamp, Some(stamp));
    assert_ne!(ExecutionSessionKind::Run, ExecutionSessionKind::Test);
    assert_ne!(ProjectMode::Run, ProjectMode::Test);
    assert_ne!(SurfaceNodeReadShape::Point, SurfaceNodeReadShape::Singleton);
    assert_ne!(SurfaceCollectionReadShape::RootPage, SurfaceCollectionReadShape::UniqueLookup);
}

#[test]
fn budget_spends_until_exhausted() {
    let mut budget = SurfaceMaterializationBudget::new();
    assert!(budget.take(SURFACE_MAX_MATERIALIZED_BYTES - 10).is_ok());
    assert!(budget.take(11).is_err());
    assert!(budget.take(10).is_ok());
    assert!(budget.take(1).is_err());
    assert_eq!(budget.take(0), Ok(()));
}

#[test]
fn output_builtins_append() {
    let mut out = String::new();
    emit_output(&mut out, OutputKind::Print, "a");
    emit_output(&mut out, OutputKind::Write, "b");
    assert_eq!(out, "a\nb");
    out.write("c");
    assert_eq!(out, "a\nbc");
    assert_eq!(OutputKind::Print.label(), "print");
    assert!(!OutputKind::Write.trailing_newline());
}

#[test]
fn dates_stay_in_the_supported_range() {
    assert_eq!(add_days(0, 1), Ok(1));
    assert_eq!(add_days(MAX_SUPPORTED_DATE, 1).is_err(), true);
    assert_eq!(add_days(MIN_SUPPORTED_DATE, -1).is_err(), true);
    assert_eq!(add_days(0, i64::MAX).is_err(), true);
    assert_eq!(add_days(MAX_SUPPORTED_DATE + 1, -5).is_err(), true);
    assert_eq!(days_between(-3, 4), Ok(7));
    assert!(days_between(MIN_SUPPORTED_DATE - 1, 0).is_err());
    assert_eq!(require_supported_date(MIN_SUPPORTED_DATE), Ok(MIN_SUPPORTED_DATE));
    assert_eq!(ClockDatePart::from_name("month"), Some(ClockDatePart::Month));
    assert_eq!(ClockDatePart::from_name("week"), None);
    for part in [ClockDatePart::Year, ClockDatePart::Month, ClockDatePart::Day] {
        assert_eq!(ClockDatePart::from_name(part.name()), Some(part));
    }
}
