//! Host capabilities a run may use, the nondeterminism a run captures at its
//! boundary, and the read-only view of an activation handed to a debugger.

use std::cell::RefCell;
use std::collections::HashMap;
use std::rc::Rc;

use vstd::prelude::*;

use vstd::arithmetic::power2::*;

use crate::strbuf::{push_str, str_eq};

verus! {

/// `std::cell::RefCell`, carried through as the shared log sink.
#[verifier::external_type_specification]
#[verifier::external_body]
#[verifier::reject_recursive_types(T)]
pub struct ExRefCell<T: ?Sized>(RefCell<T>);

/// The nondeterministic inputs a host or tool may capture at a run boundary.
pub trait Nondeterminism {
    fn now_nanos(&self) -> i128;

    fn entropy_u128(&mut self) -> u128;
}

/// Fixed nondeterminism for deterministic runs and tests.
#[derive(Debug, Clone, Copy, PartialEq, Eq, Structural)]
pub struct FixedNondeterminism {
    now_nanos: i128,
    entropy_u128: u128,
}

impl FixedNondeterminism {
    /// The fixed instant this provider reports.
    pub closed spec fn fixed_now(&self) -> i128 {
        self.now_nanos
    }

    /// The fixed entropy this provider reports.
    pub closed spec fn fixed_entropy(&self) -> u128 {
        self.entropy_u128
    }

    /// A provider that always reports `now_nanos` and `entropy_u128`.
    pub fn new(now_nanos: i128, entropy_u128: u128) -> (r: Self)
        ensures
            r.fixed_now() == now_nanos,
            r.fixed_entropy() == entropy_u128,
    {
        FixedNondeterminism { now_nanos, entropy_u128 }
    }
}

impl Nondeterminism for FixedNondeterminism {
    fn now_nanos(&self) -> (r: i128)
        ensures
            r == self.fixed_now(),
    {
        self.now_nanos
    }

    fn entropy_u128(&mut self) -> (r: u128)
        ensures
            r == old(self).fixed_entropy(),
            *final(self) == *old(self),
    {
        self.entropy_u128
    }
}

/// A host given fixed nondeterminism reads its clock at the fixed instant:
/// whatever instant the provider may report is that instant.
pub proof fn lemma_fixed_provider_clock(f: FixedNondeterminism, t: i128)
    requires
        call_ensures(<FixedNondeterminism as Nondeterminism>::now_nanos, (&f,), t),
    ensures
        t == f.fixed_now(),
{
}

/// What one call on a nondeterminism provider reported: an instant from a
/// clock read, or entropy from an entropy draw.
#[derive(Debug, Clone, Copy, PartialEq, Eq, Structural)]
pub enum ProviderReport {
    Instant(i128),
    Entropy(u128),
}

/// What a fixed provider reports for the kind of call that gave `report`.
pub open spec fn fixed_report(f: FixedNondeterminism, report: ProviderReport) -> ProviderReport {
    match report {
        ProviderReport::Instant(_) => ProviderReport::Instant(f.fixed_now()),
        ProviderReport::Entropy(_) => ProviderReport::Entropy(f.fixed_entropy()),
    }
}

/// A fixed provider reports the same instant and the same entropy on every
/// call, whatever calls came before: over any run of clock reads and entropy
/// draws, where `states[i]` is the provider as call `i` finds it and
/// `states[i + 1]` as that call leaves it, every report is the value the
/// provider was made with, and the provider ends as it began.
pub proof fn lemma_fixed_provider_run(
    f: FixedNondeterminism,
    states: Seq<FixedNondeterminism>,
    reports: Seq<ProviderReport>,
)
    requires
        states.len() == reports.len() + 1,
        states[0] == f,
        forall|i: int|
            0 <= i < reports.len() ==> match #[trigger] reports[i] {
                ProviderReport::Instant(t) => call_ensures(
                    <FixedNondeterminism as Nondeterminism>::now_nanos,
                    (&states[i],),
                    t,
                ) && states[i + 1] == states[i],
                ProviderReport::Entropy(e) => exists|m: &mut FixedNondeterminism|
                    #![trigger call_ensures(<FixedNondeterminism as Nondeterminism>::entropy_u128, (m,), e)]
                    mut_ref_current(m) == states[i] && mut_ref_future(m) == states[i + 1]
                        && call_ensures(
                        <FixedNondeterminism as Nondeterminism>::entropy_u128,
                        (m,),
                        e,
                    ),
            },
    ensures
        forall|i: int| 0 <= i < reports.len() ==> #[trigger] reports[i] == fixed_report(f, reports[i]),
        forall|i: int| 0 <= i < states.len() ==> #[trigger] states[i] == f,
    decreases reports.len(),
{
    if reports.len() > 0 {
        let n = reports.len() - 1;
        lemma_fixed_provider_run(f, states.take(n + 1), reports.take(n));
        assert(states.take(n + 1)[n] == states[n]);
        assert(states[n] == f);
        if let ProviderReport::Entropy(e) = reports[n] {
            // The draw's provider, as the call found it and as it left it.
            let _draw = choose|m: &mut FixedNondeterminism|
                mut_ref_current(m) == states[n] && mut_ref_future(m) == states[n + 1]
                    && call_ensures(<FixedNondeterminism as Nondeterminism>::entropy_u128, (m,), e);
        }
        assert forall|i: int| 0 <= i < reports.len() implies #[trigger] reports[i] == fixed_report(
            f,
            reports[i],
        ) by {
            if i < n {
                assert(reports.take(n)[i] == reports[i]);
            }
        }
        assert forall|i: int| 0 <= i < states.len() implies #[trigger] states[i] == f by {
            if i <= n {
                assert(states.take(n + 1)[i] == states[i]);
            }
        }
    }
}

/// The 128-bit entropy value that sixteen bytes of operating-system entropy
/// spell, most significant byte first.
pub open spec fn be_bytes_value(bytes: Seq<u8>) -> int
    decreases bytes.len(),
{
    if bytes.len() == 0 {
        0
    } else {
        be_bytes_value(bytes.drop_last()) * 256 + bytes.last() as int
    }
}

/// Reads sixteen entropy bytes as one big-endian `u128`.
pub fn entropy_from_be_bytes(bytes: [u8; 16]) -> (r: u128)
    ensures
        r as int == be_bytes_value(bytes@),
{
    let mut acc: u128 = 0;
    let mut i: usize = 0;
    proof {
        lemma2_to64();
        lemma2_to64_rest();
        lemma_pow2_adds(64, 64);
        assert(pow2(128) == 0x1_0000_0000_0000_0000_0000_0000_0000_0000int);
        assert(bytes@.take(0) =~= Seq::<u8>::empty());
    }
    while i < 16
        invariant
            i <= 16,
            bytes@.len() == 16,
            acc as int == be_bytes_value(bytes@.take(i as int)),
            (acc as int) < pow2(8 * i as nat),
            pow2(8) == 256,
            pow2(128) == 0x1_0000_0000_0000_0000_0000_0000_0000_0000int,
        decreases 16 - i,
    {
        let b = bytes[i] as u128;
        proof {
            assert(bytes@.take(i as int + 1).drop_last() =~= bytes@.take(i as int));
            lemma_pow2_adds(8 * i as nat, 8);
            if i < 15 {
                lemma_pow2_strictly_increases(8 * i as nat + 8, 128);
            }
            let p = pow2(8 * i as nat);
            assert(acc * 256 + b < p * 256) by (nonlinear_arith)
                requires
                    acc < p,
                    b < 256,
            ;
            assert(8 * (i + 1) as nat == 8 * i as nat + 8);
        }
        acc = acc * 256 + b;
        i = i + 1;
    }
    assert(bytes@.take(16) =~= bytes@);
    acc
}

/// The capabilities a host grants, as values.
pub struct HostView {
    pub clock: Option<i128>,
    pub environment: Option<HashMap<String, String>>,
    pub log: Option<Rc<RefCell<String>>>,
    pub filesystem: bool,
    pub maintenance: bool,
}

/// The host capabilities a run may use. Pure runs need none; host modules such
/// as `std::clock` require the matching capability.
#[derive(Debug, Clone)]
pub struct Host {
    /// UTC instant in nanoseconds since the epoch, captured once so every
    /// `std::clock::now()` in the run sees one consistent instant.
    pub(crate) clock: Option<i128>,
    /// The run's environment variables, when an environment capability is
    /// provided.
    pub(crate) environment: Option<HashMap<String, String>>,
    /// The run's log sink, when a log capability is provided.
    pub(crate) log: Option<Rc<RefCell<String>>>,
    /// Whether the run may touch the real filesystem through `std::io`.
    pub(crate) filesystem: bool,
    /// Whether the run may perform maintenance-only managed operations.
    pub(crate) maintenance: bool,
}

impl View for Host {
    type V = HostView;

    closed spec fn view(&self) -> HostView {
        HostView {
            clock: self.clock,
            environment: self.environment,
            log: self.log,
            filesystem: self.filesystem,
            maintenance: self.maintenance,
        }
    }
}

impl Default for Host {
    fn default() -> (r: Self)
        ensures
            r@ == (HostView {
                clock: None,
                environment: None,
                log: None,
                filesystem: false,
                maintenance: false,
            }),
    {
        Host { clock: None, environment: None, log: None, filesystem: false, maintenance: false }
    }
}

impl Host {
    /// A host that provides no capabilities.
    pub fn new() -> (r: Self)
        ensures
            r@ == (HostView {
                clock: None,
                environment: None,
                log: None,
                filesystem: false,
                maintenance: false,
            }),
    {
        Host { clock: None, environment: None, log: None, filesystem: false, maintenance: false }
    }

    /// The clock captures one instant from the given provider; every other
    /// capability is kept.
    pub fn with_nondeterminism<N: Nondeterminism>(self, nondeterminism: &N) -> (r: Self)
        ensures
            exists|t: i128|
                call_ensures(N::now_nanos, (nondeterminism,), t) && r@ == (HostView {
                    clock: Some(t),
                    ..self@
                }),
    {
        let now = nondeterminism.now_nanos();
        self.with_clock(now)
    }

    /// The clock returns a fixed instant (nanoseconds since the Unix epoch,
    /// UTC); every other capability is kept.
    pub fn with_clock(self, nanos: i128) -> (r: Self)
        ensures
            r@ == (HostView { clock: Some(nanos), ..self@ }),
    {
        Host { clock: Some(nanos), ..self }
    }

    /// The environment is the given variables; every other capability is kept.
    pub fn with_environment(self, variables: HashMap<String, String>) -> (r: Self)
        ensures
            r@ == (HostView { environment: Some(variables), ..self@ }),
    {
        Host { environment: Some(variables), ..self }
    }

    /// `std::log` output collects into the caller-owned `sink`; every other
    /// capability is kept.
    pub fn with_log_sink(self, sink: Rc<RefCell<String>>) -> (r: Self)
        ensures
            r@ == (HostView { log: Some(sink), ..self@ }),
    {
        Host { log: Some(sink), ..self }
    }

    /// Grants `std::io` access to the real filesystem; every other capability
    /// is kept.
    pub fn with_filesystem(self) -> (r: Self)
        ensures
            r@ == (HostView { filesystem: true, ..self@ }),
    {
        Host { filesystem: true, ..self }
    }

    /// Opts in to maintenance-only managed operations; every other capability
    /// is kept.
    pub fn with_maintenance(self) -> (r: Self)
        ensures
            r@ == (HostView { maintenance: true, ..self@ }),
    {
        Host { maintenance: true, ..self }
    }

    /// The captured clock instant, when the clock capability is provided.
    pub fn clock(&self) -> (r: Option<i128>)
        ensures
            r == self@.clock,
    {
        self.clock
    }

    /// Whether `std::io` may touch the real filesystem.
    pub fn filesystem(&self) -> (r: bool)
        ensures
            r == self@.filesystem,
    {
        self.filesystem
    }

    /// Whether maintenance-only managed operations are allowed.
    pub fn maintenance(&self) -> (r: bool)
        ensures
            r == self@.maintenance,
    {
        self.maintenance
    }
}

/// A host module called without the capability it needs.
#[derive(Debug, Clone, Copy, PartialEq, Eq, Structural)]
pub enum Capability {
    Clock,
    Environment,
    Log,
    Filesystem,
}

/// The name of a capability, as diagnostics spell it.
pub open spec fn capability_name(c: Capability) -> Seq<char> {
    match c {
        Capability::Clock => "clock"@,
        Capability::Environment => "environment"@,
        Capability::Log => "log"@,
        Capability::Filesystem => "filesystem"@,
    }
}

/// The diagnostic of a call of `std::{module}::{op}` without `capability`.
pub open spec fn no_capability_text(capability: Capability, module: Seq<char>, op: Seq<char>) -> Seq<char> {
    "this run provides no "@ + capability_name(capability) + " capability for `std::"@ + module
        + "::"@ + op + "`"@
}

/// The diagnostic of a call of `std::{module}::{op}` without `capability`.
pub fn no_capability_message(capability: Capability, module: &str, op: &str) -> (r: String)
    ensures
        r@ == no_capability_text(capability, module@, op@),
{
    let mut out = String::new();
    push_str(&mut out, "this run provides no ");
    match capability {
        Capability::Clock => push_str(&mut out, "clock"),
        Capability::Environment => push_str(&mut out, "environment"),
        Capability::Log => push_str(&mut out, "log"),
        Capability::Filesystem => push_str(&mut out, "filesystem"),
    }
    push_str(&mut out, " capability for `std::");
    push_str(&mut out, module);
    push_str(&mut out, "::");
    push_str(&mut out, op);
    push_str(&mut out, "`");
    out
}

/// One day, in nanoseconds.
pub const NANOS_PER_DAY: i128 = 86_400_000_000_000;

impl Host {
    /// `std::clock::now`: the captured instant, or the missing clock.
    pub fn clock_now(&self) -> (r: Result<i128, Capability>)
        ensures
            match self@.clock {
                Some(n) => r == Ok::<i128, Capability>(n),
                None => r == Err::<i128, Capability>(Capability::Clock),
            },
    {
        match self.clock {
            Some(n) => Ok(n),
            None => Err(Capability::Clock),
        }
    }

    /// `std::clock::today`: the UTC day of the captured instant, in days
    /// since the epoch (cut to the `i32` days), or the missing clock.
    pub fn clock_today(&self) -> (r: Result<i32, Capability>)
        ensures
            match self@.clock {
                Some(n) => r == Ok::<i32, Capability>((n as int / NANOS_PER_DAY as int) as i32),
                None => r == Err::<i32, Capability>(Capability::Clock),
            },
    {
        match self.clock {
            Some(n) => {
                let q = n / NANOS_PER_DAY;
                let m = n % NANOS_PER_DAY;
                let day = if m < 0 {
                    q - 1
                } else {
                    q
                };
                proof {
                    crate::math::lemma_truncated_division(n as int, NANOS_PER_DAY as int);
                    assert(q == crate::math::trunc_div(n as int, NANOS_PER_DAY as int));
                    assert(m == crate::math::trunc_rem(n as int, NANOS_PER_DAY as int));
                    vstd::arithmetic::div_mod::lemma_fundamental_div_mod(n as int, NANOS_PER_DAY as int);
                    vstd::arithmetic::div_mod::lemma_mod_bound(n as int, NANOS_PER_DAY as int);
                    if m < 0 {
                        assert(n == (q - 1) * NANOS_PER_DAY + (m + NANOS_PER_DAY)) by (nonlinear_arith)
                            requires
                                n == q * NANOS_PER_DAY + m,
                        ;
                        vstd::arithmetic::div_mod::lemma_fundamental_div_mod_converse_div(
                            n as int,
                            NANOS_PER_DAY as int,
                            q - 1,
                            m + NANOS_PER_DAY,
                        );
                    } else {
                        vstd::arithmetic::div_mod::lemma_fundamental_div_mod_converse_div(
                            n as int,
                            NANOS_PER_DAY as int,
                            q as int,
                            m as int,
                        );
                    }
                }
                Ok(day as i32)
            },
            None => Err(Capability::Clock),
        }
    }

    /// The run's log sink, or the missing log capability.
    pub fn log_sink(&self) -> (r: Result<&Rc<RefCell<String>>, Capability>)
        ensures
            match self@.log {
                Some(sink) => r == Ok::<&Rc<RefCell<String>>, Capability>(&sink),
                None => r == Err::<&Rc<RefCell<String>>, Capability>(Capability::Log),
            },
    {
        match &self.log {
            Some(sink) => Ok(sink),
            None => Err(Capability::Log),
        }
    }
}

/// How severe a log line is.
#[derive(Debug, Clone, Copy, PartialEq, Eq, Structural)]
pub enum LogLevel {
    Info,
    Warn,
}

/// A log line of a plain message.
pub open spec fn log_line_text(level: LogLevel, message: Seq<char>) -> Seq<char> {
    (match level {
        LogLevel::Info => "INFO "@,
        LogLevel::Warn => "WARN "@,
    }) + message + seq!['\n']
}

/// The log line of `std::log::info` or `std::log::warn`.
pub fn log_line(level: LogLevel, message: &str) -> (r: String)
    ensures
        r@ == log_line_text(level, message@),
{
    let mut out = String::new();
    match level {
        LogLevel::Info => push_str(&mut out, "INFO "),
        LogLevel::Warn => push_str(&mut out, "WARN "),
    }
    push_str(&mut out, message);
    crate::strbuf::push_char(&mut out, '\n');
    out
}

/// The log line of `std::log::error`: the error's code in brackets, then
/// its message.
pub open spec fn error_log_line_text(code: Seq<char>, message: Seq<char>) -> Seq<char> {
    "ERROR ["@ + code + "] "@ + message + seq!['\n']
}

/// The log line of `std::log::error`.
pub fn error_log_line(code: &str, message: &str) -> (r: String)
    ensures
        r@ == error_log_line_text(code@, message@),
{
    let mut out = String::new();
    push_str(&mut out, "ERROR [");
    push_str(&mut out, code);
    push_str(&mut out, "] ");
    push_str(&mut out, message);
    crate::strbuf::push_char(&mut out, '\n');
    out
}

/// A module of the running program and the source file it was read from.
#[derive(Debug, Clone)]
pub struct ModuleSource {
    pub name: String,
    pub source_file: String,
}

/// A read-only view of the current activation handed to a debugger hook: its
/// depth, the module it runs in, and the program's modules.
#[derive(Debug, Clone)]
pub struct Frame {
    depth: usize,
    module: String,
    modules: Vec<ModuleSource>,
}

/// The source file of the first module named `module`.
pub open spec fn module_file(modules: Seq<ModuleSource>, module: Seq<char>) -> Option<Seq<char>>
    decreases modules.len(),
{
    if modules.len() == 0 {
        None
    } else if modules[0].name@ == module {
        Some(modules[0].source_file@)
    } else {
        module_file(modules.drop_first(), module)
    }
}

proof fn lemma_module_file(modules: Seq<ModuleSource>, module: Seq<char>, i: int)
    requires
        0 <= i <= modules.len(),
        forall|k: int| 0 <= k < i ==> (#[trigger] modules[k]).name@ != module,
    ensures
        i < modules.len() && modules[i].name@ == module ==> module_file(modules, module) == Some(
            modules[i].source_file@,
        ),
        i == modules.len() ==> module_file(modules, module) is None,
    decreases i,
{
    if i > 0 {
        let t = modules.drop_first();
        assert forall|k: int| 0 <= k < i - 1 implies (#[trigger] t[k]).name@ != module by {
            assert(t[k] == modules[k + 1]);
        }
        lemma_module_file(t, module, i - 1);
        if i < modules.len() {
            assert(t[i - 1] == modules[i]);
        }
    }
}

impl Frame {
    /// The activation depth.
    pub closed spec fn depth_spec(&self) -> usize {
        self.depth
    }

    /// The module this activation runs in.
    pub closed spec fn module_spec(&self) -> Seq<char> {
        self.module@
    }

    /// The program's modules.
    pub closed spec fn modules_spec(&self) -> Seq<ModuleSource> {
        self.modules@
    }

    /// The view of an activation at `depth` running in `module`.
    pub fn new(depth: usize, module: String, modules: Vec<ModuleSource>) -> (r: Self)
        ensures
            r.depth_spec() == depth,
            r.module_spec() == module@,
            r.modules_spec() == modules@,
    {
        Frame { depth, module, modules }
    }

    /// The activation depth: 1 for the entry function, one more per nested
    /// call.
    pub fn depth(&self) -> (r: usize)
        ensures
            r == self.depth_spec(),
    {
        self.depth
    }

    /// The source file this activation runs in, found by module name, or
    /// `None` when no module has that name.
    pub fn file(&self) -> (r: Option<&str>)
        ensures
            match module_file(self.modules_spec(), self.module_spec()) {
                Some(f) => r matches Some(s) && s@ == f,
                None => r is None,
            },
    {
        let mut i: usize = 0;
        while i < self.modules.len()
            invariant
                i <= self.modules@.len(),
                forall|k: int| 0 <= k < i ==> (#[trigger] self.modules@[k]).name@ != self.module@,
            decreases self.modules@.len() - i,
        {
            if str_eq(self.modules[i].name.as_str(), self.module.as_str()) {
                proof {
                    lemma_module_file(self.modules@, self.module@, i as int);
                }
                return Some(self.modules[i].source_file.as_str());
            }
            i = i + 1;
        }
        proof {
            lemma_module_file(self.modules@, self.module@, i as int);
        }
        None
    }
}

} // verus!
