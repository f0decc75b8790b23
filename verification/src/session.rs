//! The plain values a project session reports: its mode, the notices it
//! raises while opening, the stamp of the store it ran against, the execution
//! boundary it declares, and the text of a schema fence.

use vstd::prelude::*;

use crate::numeral::{decimal_chars, push_decimal};
use crate::strbuf::push_str;

verus! {

/// Whether a project session runs the entry function or the tests.
#[derive(Debug, Clone, Copy, PartialEq, Eq, Structural)]
pub enum ProjectMode {
    Run,
    Test,
}

/// What opening a session did, or in a dry run would do, to the catalog.
#[derive(Debug, Clone, PartialEq, Eq)]
pub enum ProjectSessionNotice {
    AutoApplied { from_epoch: u64, to_epoch: u64 },
    DryRunWouldFreeze,
    DryRunWouldApply { from_epoch: u64, to_epoch: u64 },
    DryRunWouldFence { message: String },
}

/// The text of a notice.
pub open spec fn notice_text(n: ProjectSessionNotice) -> Seq<char> {
    match n {
        ProjectSessionNotice::AutoApplied { from_epoch, to_epoch } => "auto-applied evolution: catalog epoch "@
            + decimal_chars(from_epoch as nat) + " -> "@ + decimal_chars(to_epoch as nat),
        ProjectSessionNotice::DryRunWouldFreeze => "dry run: would freeze accepted catalog identity"@,
        ProjectSessionNotice::DryRunWouldApply {
            from_epoch,
            to_epoch,
        } => "dry run: would apply evolution: catalog epoch "@ + decimal_chars(from_epoch as nat)
            + " -> "@ + decimal_chars(to_epoch as nat),
        ProjectSessionNotice::DryRunWouldFence { message } => "dry run: would fence: "@ + message@,
    }
}

impl ProjectSessionNotice {
    /// The text of this notice.
    pub fn message(&self) -> (r: String)
        ensures
            r@ == notice_text(*self),
    {
        let mut out = String::new();
        match self {
            ProjectSessionNotice::AutoApplied { from_epoch, to_epoch } => {
                push_str(&mut out, "auto-applied evolution: catalog epoch ");
                push_decimal(&mut out, *from_epoch);
                push_str(&mut out, " -> ");
                push_decimal(&mut out, *to_epoch);
            },
            ProjectSessionNotice::DryRunWouldFreeze => {
                push_str(&mut out, "dry run: would freeze accepted catalog identity");
            },
            ProjectSessionNotice::DryRunWouldApply { from_epoch, to_epoch } => {
                push_str(&mut out, "dry run: would apply evolution: catalog epoch ");
                push_decimal(&mut out, *from_epoch);
                push_str(&mut out, " -> ");
                push_decimal(&mut out, *to_epoch);
            },
            ProjectSessionNotice::DryRunWouldFence { message } => {
                push_str(&mut out, "dry run: would fence: ");
                push_str(&mut out, message.as_str());
            },
        }
        out
    }
}

/// The store a session ran against: its identity, the catalog epoch it was
/// stamped at, and its last commit.
#[derive(Debug, Clone, PartialEq, Eq)]
pub struct StoreStamp {
    pub store_uid: String,
    pub catalog_epoch: u64,
    pub commit_id: u64,
}

/// Whether an execution ran the entry function or a test.
#[derive(Debug, Clone, Copy, PartialEq, Eq, Structural)]
pub enum ExecutionSessionKind {
    Run,
    Test,
}

/// The store an execution ran against, and its stamp when it has one.
#[derive(Debug, Clone, PartialEq, Eq)]
pub struct ExecutionStoreBoundary {
    pub kind: ExecutionBoundaryStoreKind,
    pub stamp: Option<StoreStamp>,
}

/// The kind of store an execution ran against.
#[derive(Debug, Clone, Copy, PartialEq, Eq, Structural)]
pub enum ExecutionBoundaryStoreKind {
    FreshMemory,
    Isolated,
    NativeCommit,
    TestMemory,
    PlainMemory,
}

/// The work that a schema change still owes the stored data before a run
/// may proceed.
#[derive(Debug, Clone, Copy, PartialEq, Eq, Structural)]
pub enum RunObligation {
    Backfill { records: u64 },
    Transform { records: u64 },
    DestructiveDrop { populated: u64 },
    Repair,
    ZeroMutation,
}

/// The text of a fence: why the stamped store is refused, then what
/// discharges the obligation.
pub open spec fn fence_text(o: RunObligation) -> Seq<char> {
    "store was stamped under a different schema at this catalog epoch"@ + match o {
        RunObligation::Backfill { records } => "; the change backfills "@ + decimal_chars(
            records as nat,
        ) + " record(s). Run `marrow evolve apply` to discharge it."@,
        RunObligation::Transform { records } => "; the change rewrites "@ + decimal_chars(
            records as nat,
        ) + " record(s). Run `marrow evolve apply` to discharge it."@,
        RunObligation::DestructiveDrop { populated } => "; the change drops "@ + decimal_chars(
            populated as nat,
        )
            + " populated record(s). Run `marrow evolve apply --maintenance` and confirm the retire to discharge it."@,
        RunObligation::Repair => "; the change cannot be discharged against the stored data. Run `marrow evolve preview` to see the required repair."@,
        RunObligation::ZeroMutation => Seq::empty(),
    }
}

/// The text of the fence that `obligation` raises.
pub fn fence_message(obligation: &RunObligation) -> (r: String)
    ensures
        r@ == fence_text(*obligation),
{
    let mut out = String::new();
    push_str(&mut out, "store was stamped under a different schema at this catalog epoch");
    match obligation {
        RunObligation::Backfill { records } => {
            push_str(&mut out, "; the change backfills ");
            push_decimal(&mut out, *records);
            push_str(&mut out, " record(s). Run `marrow evolve apply` to discharge it.");
        },
        RunObligation::Transform { records } => {
            push_str(&mut out, "; the change rewrites ");
            push_decimal(&mut out, *records);
            push_str(&mut out, " record(s). Run `marrow evolve apply` to discharge it.");
        },
        RunObligation::DestructiveDrop { populated } => {
            push_str(&mut out, "; the change drops ");
            push_decimal(&mut out, *populated);
            push_str(
                &mut out,
                " populated record(s). Run `marrow evolve apply --maintenance` and confirm the retire to discharge it.",
            );
        },
        RunObligation::Repair => {
            push_str(
                &mut out,
                "; the change cannot be discharged against the stored data. Run `marrow evolve preview` to see the required repair.",
            );
        },
        RunObligation::ZeroMutation => {},
    }
    out
}


/// What a dry run does about a store stamped under a different schema.
#[derive(Debug, Clone, Copy, PartialEq, Eq, Structural)]
pub enum DryRunPlan {
    /// The change mutates no data: probe an automatic apply on an isolated
    /// copy of the store.
    ProbeAutoApply,
    /// The change owes the data work: report the fence and open as is.
    Fence,
}

/// The notice a dry run raises for `obligation` over the catalog epochs
/// `from_epoch..to_epoch`, and what it does next: a change that mutates no
/// data would apply, any other would fence.
pub fn plan_dry_run(obligation: &RunObligation, from_epoch: u64, to_epoch: u64) -> (r: (
    ProjectSessionNotice,
    DryRunPlan,
))
    ensures
        *obligation == RunObligation::ZeroMutation ==> r == (
        ProjectSessionNotice::DryRunWouldApply { from_epoch, to_epoch },
        DryRunPlan::ProbeAutoApply,
        ),
        *obligation != RunObligation::ZeroMutation ==> r.1 == DryRunPlan::Fence && (
        r.0 matches ProjectSessionNotice::DryRunWouldFence { message } && message@ == fence_text(
            *obligation,
        )),
{
    match obligation {
        RunObligation::ZeroMutation => (
            ProjectSessionNotice::DryRunWouldApply { from_epoch, to_epoch },
            DryRunPlan::ProbeAutoApply,
        ),
        _ => (
            ProjectSessionNotice::DryRunWouldFence { message: fence_message(obligation) },
            DryRunPlan::Fence,
        ),
    }
}

/// How the automatic-apply probe on the isolated store went.
#[derive(Debug, Clone, Copy, PartialEq, Eq, Structural)]
pub enum ProbeOutcome {
    Applied,
    MustFence(RunObligation),
    StoreChanged,
}

/// What a dry run does after its probe.
#[derive(Debug, Clone, PartialEq, Eq)]
pub enum ProbeNext {
    /// The probe applied: recheck the program against the isolated store and
    /// run there.
    RecheckIsolated,
    /// The probe found the change must fence after all: report it and open
    /// the store as is.
    FinishOpen(ProjectSessionNotice),
    /// The store changed under the probe: the session fails with this drift.
    Drift(String),
}

/// The text of the drift a store changed under the probe reports.
pub open spec fn probe_drift_text() -> Seq<char> {
    "store changed under the auto-apply probe; re-run to recompute the evolution against current data"@
}

/// What a dry run does after its automatic-apply probe.
pub fn after_auto_apply_probe(outcome: ProbeOutcome) -> (r: ProbeNext)
    ensures
        match outcome {
            ProbeOutcome::Applied => r == ProbeNext::RecheckIsolated,
            ProbeOutcome::MustFence(o) => r matches ProbeNext::FinishOpen(
                ProjectSessionNotice::DryRunWouldFence { message },
            ) && message@ == fence_text(o),
            ProbeOutcome::StoreChanged => r matches ProbeNext::Drift(m) && m@ == probe_drift_text(),
        },
{
    match outcome {
        ProbeOutcome::Applied => ProbeNext::RecheckIsolated,
        ProbeOutcome::MustFence(o) => ProbeNext::FinishOpen(
            ProjectSessionNotice::DryRunWouldFence { message: fence_message(&o) },
        ),
        ProbeOutcome::StoreChanged => {
            let mut m = String::new();
            push_str(
                &mut m,
                "store changed under the auto-apply probe; re-run to recompute the evolution against current data",
            );
            ProbeNext::Drift(m)
        },
    }
}


/// Where a run session keeps the writes of its run.
#[derive(Debug, Clone, Copy, PartialEq, Eq, Structural)]
pub enum RunStorePolicy {
    /// Writes commit to the project's store.
    Commit,
    /// Writes go to an isolated copy of the store (a dry run).
    Isolated,
    /// The run gets a fresh in-memory store.
    FreshMemory,
}

/// How a run session opens its store.
#[derive(Debug, Clone, Copy, PartialEq, Eq, Structural)]
pub enum StoreOpening {
    /// The project's store, with writes committed (`isolate_writes` false) or
    /// kept apart (`isolate_writes` true).
    ProjectStore { isolate_writes: bool },
    /// A fresh in-memory store.
    FreshMemory,
}

/// Why a run session cannot open.
#[derive(Debug, Clone, Copy, PartialEq, Eq, Structural)]
pub enum RunSessionRefusal {
    /// Neither the open request nor the project names an entry function.
    NoEntry,
    /// A source-analysis admission was given for a session that commits.
    AdmissionNeedsIsolation,
}

impl RunSessionRefusal {
    /// The diagnostic text.
    pub fn message(&self) -> (r: &'static str)
        ensures
            r@ == (match self {
                RunSessionRefusal::NoEntry => "no entry to run; pass --entry <name> or set `run.defaultEntry` in marrow.json"@,
                RunSessionRefusal::AdmissionNeedsIsolation => "source analysis admission is only valid for isolated or fresh-memory run sessions"@,
            }),
    {
        match self {
            RunSessionRefusal::NoEntry => "no entry to run; pass --entry <name> or set `run.defaultEntry` in marrow.json",
            RunSessionRefusal::AdmissionNeedsIsolation => "source analysis admission is only valid for isolated or fresh-memory run sessions",
        }
    }
}

/// The entry function a run session invokes and how it opens its store: the
/// requested entry, else the project's default; an admission is refused for
/// a committing session.
pub fn plan_run_session(
    entry_override: Option<String>,
    default_entry: Option<String>,
    policy: RunStorePolicy,
    has_admission: bool,
) -> (r: Result<(String, StoreOpening), RunSessionRefusal>)
    ensures
        entry_override is None && default_entry is None ==> r == Err::<(String, StoreOpening), RunSessionRefusal>(
            RunSessionRefusal::NoEntry,
        ),
        !(entry_override is None && default_entry is None) && policy == RunStorePolicy::Commit
            && has_admission ==> r == Err::<(String, StoreOpening), RunSessionRefusal>(
            RunSessionRefusal::AdmissionNeedsIsolation,
        ),
        !(entry_override is None && default_entry is None) && !(policy == RunStorePolicy::Commit
            && has_admission) ==> (r matches Ok((entry, opening)) && entry == (match entry_override {
            Some(e) => e,
            None => default_entry.unwrap(),
        }) && opening == (match policy {
            RunStorePolicy::Commit => StoreOpening::ProjectStore { isolate_writes: false },
            RunStorePolicy::Isolated => StoreOpening::ProjectStore { isolate_writes: true },
            RunStorePolicy::FreshMemory => StoreOpening::FreshMemory,
        })),
{
    let entry = match entry_override {
        Some(e) => e,
        None => match default_entry {
            Some(e) => e,
            None => return Err(RunSessionRefusal::NoEntry),
        },
    };
    if policy == RunStorePolicy::Commit && has_admission {
        return Err(RunSessionRefusal::AdmissionNeedsIsolation);
    }
    let opening = match policy {
        RunStorePolicy::Commit => StoreOpening::ProjectStore { isolate_writes: false },
        RunStorePolicy::Isolated => StoreOpening::ProjectStore { isolate_writes: true },
        RunStorePolicy::FreshMemory => StoreOpening::FreshMemory,
    };
    Ok((entry, opening))
}

// ---------------------------------------------------------------------------
// Test cases.
/// A function of a checked module, as test selection reads it.
#[derive(Debug, Clone, PartialEq, Eq)]
pub struct TestFunction {
    pub name: String,
    pub public: bool,
    pub param_count: usize,
}

/// A checked module: its name, the file it was read from, and its functions.
#[derive(Debug, Clone, PartialEq, Eq)]
pub struct TestModule {
    pub name: String,
    pub source_file: String,
    pub functions: Vec<TestFunction>,
}

/// A test case: its `module::function` name, the module's source file, and
/// where the function stands (module index, function index).
#[derive(Debug, Clone, PartialEq, Eq)]
pub struct TestCase {
    pub name: String,
    pub source_file: String,
    pub module: usize,
    pub function: usize,
}

/// A test case by the chars of its texts.
pub open spec fn case_view(c: TestCase) -> (Seq<char>, Seq<char>, int, int) {
    (c.name@, c.source_file@, c.module as int, c.function as int)
}

/// The test cases of a module `m`, at index `mi`, among its functions
/// `fns`: every public function without parameters, named `module::function`.
pub open spec fn module_cases(m: TestModule, mi: int, fns: Seq<TestFunction>) -> Seq<
    (Seq<char>, Seq<char>, int, int),
>
    decreases fns.len(),
{
    if fns.len() == 0 {
        Seq::empty()
    } else {
        let rest = module_cases(m, mi, fns.drop_last());
        let f = fns.last();
        if f.public && f.param_count == 0 {
            rest.push((m.name@ + "::"@ + f.name@, m.source_file@, mi, fns.len() - 1))
        } else {
            rest
        }
    }
}

/// The test cases of the modules from index `first` on, in module order and
/// then function order.
pub open spec fn test_cases_spec(modules: Seq<TestModule>, first: int) -> Seq<
    (Seq<char>, Seq<char>, int, int),
>
    decreases modules.len(),
{
    if modules.len() == 0 || modules.len() <= first {
        Seq::empty()
    } else {
        test_cases_spec(modules.drop_last(), first) + module_cases(
            modules.last(),
            modules.len() - 1,
            modules.last().functions@,
        )
    }
}

/// The test cases of a checked test program whose first `first` modules are
/// the project's own sources: every public, parameterless function of the
/// test modules after them, named `module::function`.
pub fn pick_test_cases(modules: &Vec<TestModule>, first: usize) -> (r: Vec<TestCase>)
    requires
        first <= modules@.len(),
    ensures
        r@.map_values(|c: TestCase| case_view(c)) == test_cases_spec(modules@, first as int),
{
    let mut out: Vec<TestCase> = Vec::new();
    let mut i: usize = first;
    assert(out@.map_values(|c: TestCase| case_view(c)) =~= test_cases_spec(modules@.take(i as int), first as int));
    while i < modules.len()
        invariant
            first <= i <= modules@.len(),
            out@.map_values(|c: TestCase| case_view(c)) == test_cases_spec(modules@.take(i as int), first as int),
        decreases modules@.len() - i,
    {
        let m = &modules[i];
        let ghost base = out@.map_values(|c: TestCase| case_view(c));
        let mut j: usize = 0;
        assert(m.functions@.take(0) =~= Seq::<TestFunction>::empty());
        assert(base + module_cases(*m, i as int, m.functions@.take(0)) =~= base);
        while j < m.functions.len()
            invariant
                j <= m.functions@.len(),
                out@.map_values(|c: TestCase| case_view(c)) == base + module_cases(
                    *m,
                    i as int,
                    m.functions@.take(j as int),
                ),
            decreases m.functions@.len() - j,
        {
            let f = &m.functions[j];
            assert(m.functions@.take(j + 1).drop_last() =~= m.functions@.take(j as int));
            assert(m.functions@.take(j + 1).last() == m.functions@[j as int]);
            if f.public && f.param_count == 0 {
                let mut name = String::new();
                push_str(&mut name, m.name.as_str());
                push_str(&mut name, "::");
                push_str(&mut name, f.name.as_str());
                let case = TestCase { name, source_file: m.source_file.clone(), module: i, function: j };
                let ghost before = out@;
                out.push(case);
                assert(out@ == before.push(case));
                assert(out@.map_values(|c: TestCase| case_view(c)) =~= before.map_values(
                    |c: TestCase| case_view(c),
                ).push(case_view(case)));
            }
            j = j + 1;
        }
        assert(m.functions@.take(j as int) =~= m.functions@);
        let ghost t = modules@.take(i + 1);
        assert(t.drop_last() =~= modules@.take(i as int));
        assert(t.last() == modules@[i as int]);
        i = i + 1;
    }
    assert(modules@.take(i as int) =~= modules@);
    out
}

} // verus!
