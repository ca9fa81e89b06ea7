//! The decisions of the service around its exporters: which exporters a
//! configuration entry adds, and what the control loop does next.

use vstd::prelude::*;
use vstd::string::StringExecFns;

use crate::config::Exporter as ExporterConfig;
use crate::exporter::ExportError;
use crate::otlp::POLL_INTERVAL_SECS;
use crate::record::{LogLine, Severity};

verus! {

/// One result of expanding the glob pattern of a log exporter.
#[derive(Debug)]
pub enum GlobEntry {
    /// A matching path: `display` is the path as it is displayed, and
    /// `debug` is its debug form (what `format!("{:?}", path)` prints for the
    /// path itself, with its own quoting and escapes).
    Path { display: String, debug: String },
    /// A path that could not be read, with the debug form of the error.
    Error(String),
}

/// A step in setting up the exporters of a configuration.
#[derive(Debug)]
pub enum SetupStep {
    /// Report on the service's own logger.
    Log(LogLine),
    /// Start the system metrics exporter.
    AddSystemExporter,
    /// Start tailing the log file at this path; failing to open it aborts
    /// the service.
    AddLogExporter(String),
}

/// The view of a setup step.
pub enum StepView {
    Log(Severity, Seq<char>),
    AddSystemExporter,
    AddLogExporter(Seq<char>),
}

impl View for SetupStep {
    type V = StepView;

    open spec fn view(&self) -> StepView {
        match self {
            SetupStep::Log(l) => StepView::Log(l.severity, l.message@),
            SetupStep::AddSystemExporter => StepView::AddSystemExporter,
            SetupStep::AddLogExporter(p) => StepView::AddLogExporter(p@),
        }
    }
}

/// The views of a list of steps.
pub open spec fn step_views(v: Seq<SetupStep>) -> Seq<StepView> {
    v.map_values(|s: SetupStep| s@)
}

/// The steps for one glob result: announce and tail a matching file, or
/// report the error.
pub open spec fn entry_steps(e: GlobEntry) -> Seq<StepView> {
    match e {
        GlobEntry::Path { display, debug } => seq![
            StepView::Log(Severity::Info, "Adding new log file for "@ + debug@),
            StepView::AddLogExporter(display@),
        ],
        GlobEntry::Error(m) => seq![StepView::Log(Severity::Error, m@)],
    }
}

/// The steps for the glob results of a log exporter, in order.
pub open spec fn log_steps(entries: Seq<GlobEntry>) -> Seq<StepView>
    decreases entries.len(),
{
    if entries.len() == 0 {
        Seq::empty()
    } else {
        log_steps(entries.drop_last()) + entry_steps(entries.last())
    }
}

/// The steps that set up the exporter of one configuration entry; `entries`
/// are the results of expanding a log exporter's pattern.
pub open spec fn exporter_steps(exporter: ExporterConfig, entries: Seq<GlobEntry>) -> Seq<StepView> {
    match exporter {
        ExporterConfig::System(_) => seq![
            StepView::Log(Severity::Info, "Adding system metrics exporter"@),
            StepView::AddSystemExporter,
        ],
        ExporterConfig::Log(_) => log_steps(entries),
    }
}

/// The steps that set up the exporter of one configuration entry. A system
/// entry is announced and started (its `entries` play no part); a log entry
/// gives, for each result of expanding its pattern in turn, either an
/// announcement of the file and its tailing, or a report of the error.
pub fn setup_steps(exporter: &ExporterConfig, entries: &Vec<GlobEntry>) -> (r: Vec<SetupStep>)
    ensures
        step_views(r@) == exporter_steps(*exporter, entries@),
{
    let mut r: Vec<SetupStep> = Vec::new();
    match exporter {
        ExporterConfig::System(_) => {
            r.push(
                SetupStep::Log(
                    LogLine {
                        severity: Severity::Info,
                        message: String::from_str("Adding system metrics exporter"),
                    },
                ),
            );
            r.push(SetupStep::AddSystemExporter);
            assert(step_views(r@) =~= exporter_steps(*exporter, entries@));
        },
        ExporterConfig::Log(_) => {
            assert(entries@.take(0) =~= Seq::<GlobEntry>::empty());
            assert(step_views(r@) =~= log_steps(entries@.take(0)));
            for i in 0..entries.len()
                invariant
                    step_views(r@) == log_steps(entries@.take(i as int)),
            {
                let ghost prev = r@;
                match &entries[i] {
                    GlobEntry::Path { display, debug } => {
                        let message = String::from_str("Adding new log file for ").concat(
                            debug.as_str(),
                        );
                        r.push(SetupStep::Log(LogLine { severity: Severity::Info, message }));
                        r.push(SetupStep::AddLogExporter(display.clone()));
                    },
                    GlobEntry::Error(m) => {
                        r.push(
                            SetupStep::Log(LogLine { severity: Severity::Error, message: m.clone() }),
                        );
                    },
                }
                proof {
                    assert(entries@.take(i + 1).drop_last() =~= entries@.take(i as int));
                    assert(step_views(r@) =~= step_views(prev) + entry_steps(entries@[i as int]));
                }
            }
            assert(entries@.take(entries@.len() as int) =~= entries@);
        },
    }
    r
}

/// The paths, in order, that a list of setup steps starts tailing.
pub open spec fn tailed_paths(steps: Seq<StepView>) -> Seq<Seq<char>>
    decreases steps.len(),
{
    if steps.len() == 0 {
        Seq::empty()
    } else {
        tailed_paths(steps.drop_last()) + match steps.last() {
            StepView::AddLogExporter(p) => seq![p],
            _ => Seq::empty(),
        }
    }
}

/// How many system exporters a list of setup steps starts.
pub open spec fn system_starts(steps: Seq<StepView>) -> nat
    decreases steps.len(),
{
    if steps.len() == 0 {
        0
    } else {
        system_starts(steps.drop_last()) + if steps.last() is AddSystemExporter {
            1nat
        } else {
            0nat
        }
    }
}

/// How many messages a list of setup steps reports.
pub open spec fn reports_made(steps: Seq<StepView>) -> nat
    decreases steps.len(),
{
    if steps.len() == 0 {
        0
    } else {
        reports_made(steps.drop_last()) + if steps.last() is Log {
            1nat
        } else {
            0nat
        }
    }
}

/// The displayed paths of the files that a glob expansion found, in order.
pub open spec fn found_paths(entries: Seq<GlobEntry>) -> Seq<Seq<char>>
    decreases entries.len(),
{
    if entries.len() == 0 {
        Seq::empty()
    } else {
        found_paths(entries.drop_last()) + match entries.last() {
            GlobEntry::Path { display, debug: _ } => seq![display@],
            GlobEntry::Error(_) => Seq::empty(),
        }
    }
}

proof fn lemma_counts_concat(x: Seq<StepView>, y: Seq<StepView>)
    ensures
        tailed_paths(x + y) == tailed_paths(x) + tailed_paths(y),
        system_starts(x + y) == system_starts(x) + system_starts(y),
        reports_made(x + y) == reports_made(x) + reports_made(y),
    decreases y.len(),
{
    if y.len() == 0 {
        assert(x + y =~= x);
        assert(tailed_paths(x) + tailed_paths(y) =~= tailed_paths(x));
    } else {
        assert((x + y).drop_last() =~= x + y.drop_last());
        assert((x + y).last() == y.last());
        lemma_counts_concat(x, y.drop_last());
        assert(tailed_paths(x + y) =~= tailed_paths(x) + tailed_paths(y));
    }
}

proof fn lemma_entry_counts(e: GlobEntry)
    ensures
        tailed_paths(entry_steps(e)) == match e {
            GlobEntry::Path { display, debug: _ } => seq![display@],
            GlobEntry::Error(_) => Seq::<Seq<char>>::empty(),
        },
        system_starts(entry_steps(e)) == 0,
        reports_made(entry_steps(e)) == 1,
{
    let st = entry_steps(e);
    reveal_with_fuel(tailed_paths, 3);
    reveal_with_fuel(system_starts, 3);
    reveal_with_fuel(reports_made, 3);
    match e {
        GlobEntry::Path { display, debug } => {
            assert(st.drop_last() =~= seq![st[0]]);
            assert(seq![st[0]].drop_last() =~= Seq::<StepView>::empty());
            assert(tailed_paths(st) =~= seq![display@]);
        },
        GlobEntry::Error(m) => {
            assert(st.drop_last() =~= Seq::<StepView>::empty());
            assert(tailed_paths(st) =~= Seq::<Seq<char>>::empty());
        },
    }
}

proof fn lemma_log_steps_counts(entries: Seq<GlobEntry>)
    ensures
        tailed_paths(log_steps(entries)) == found_paths(entries),
        system_starts(log_steps(entries)) == 0,
        reports_made(log_steps(entries)) == entries.len(),
    decreases entries.len(),
{
    if entries.len() > 0 {
        lemma_log_steps_counts(entries.drop_last());
        lemma_counts_concat(log_steps(entries.drop_last()), entry_steps(entries.last()));
        lemma_entry_counts(entries.last());
        assert(tailed_paths(log_steps(entries)) =~= found_paths(entries));
    }
}

/// What setting up one configuration entry starts. A log entry starts
/// tailing exactly the files its pattern matched, each once and in the order
/// found, starts no system exporter, and reports once per result of the
/// expansion (an announcement per file, an error per failure). A system
/// entry starts exactly one system exporter, tails no file, and reports once.
pub proof fn law_setup_starts(exporter: ExporterConfig, entries: Seq<GlobEntry>)
    ensures
        exporter is Log ==> tailed_paths(exporter_steps(exporter, entries)) == found_paths(entries)
            && system_starts(exporter_steps(exporter, entries)) == 0 && reports_made(
            exporter_steps(exporter, entries),
        ) == entries.len(),
        exporter is System ==> tailed_paths(exporter_steps(exporter, entries)) == Seq::<
            Seq<char>,
        >::empty() && system_starts(exporter_steps(exporter, entries)) == 1 && reports_made(
            exporter_steps(exporter, entries),
        ) == 1,
{
    match exporter {
        ExporterConfig::Log(_) => {
            lemma_log_steps_counts(entries);
        },
        ExporterConfig::System(_) => {
            let st = exporter_steps(exporter, entries);
            reveal_with_fuel(tailed_paths, 3);
            reveal_with_fuel(system_starts, 3);
            reveal_with_fuel(reports_made, 3);
            assert(st.drop_last() =~= seq![st[0]]);
            assert(seq![st[0]].drop_last() =~= Seq::<StepView>::empty());
            assert(tailed_paths(st) =~= Seq::<Seq<char>>::empty());
        },
    }
}

/// Every file that a log entry's pattern matched is announced right before
/// it is tailed: in the steps of a log entry, each step that tails a file
/// follows an Info report that names the file by its debug form.
#[verifier::rlimit(30)]
pub proof fn law_each_tailed_file_is_announced(c: ExporterConfig, entries: Seq<GlobEntry>)
    requires
        c is Log,
    ensures
        forall|k: int|
            0 <= k < exporter_steps(c, entries).len() && #[trigger] exporter_steps(c, entries)[k] is AddLogExporter
                ==> k > 0 && exporter_steps(c, entries)[k - 1] is Log,
    decreases entries.len(),
{
    let st = exporter_steps(c, entries);
    if entries.len() > 0 {
        let dl = entries.drop_last();
        law_each_tailed_file_is_announced(c, dl);
        let prev = log_steps(dl);
        let last = entry_steps(entries.last());
        assert(st == prev + last);
        assert forall|k: int| 0 <= k < st.len() && #[trigger] st[k] is AddLogExporter implies k > 0
            && st[k - 1] is Log by {
            if k < prev.len() {
                assert(st[k] == prev[k]);
                assert(exporter_steps(c, dl)[k] == prev[k]);
                assert(st[k - 1] == prev[k - 1]);
            } else {
                assert(st[k] == last[k - prev.len()]);
                if k - prev.len() == 1 {
                    assert(st[k - 1] == last[0]);
                }
            }
        }
    }
}

/// Where the control loop stands.
#[derive(Debug, Clone, Copy, PartialEq, Eq, Structural)]
pub enum LoopPhase {
    /// Waiting to learn whether the service should keep running.
    Checking,
    /// Waiting for the export of the exporter at this index.
    Exporting(usize),
    /// Waiting for the pause between two rounds to end.
    Sleeping,
    /// Done; the service returns.
    Stopped,
}

/// What the control loop asks of its driver.
#[derive(Debug, Clone, Copy, PartialEq, Eq, Structural)]
pub enum LoopAction {
    /// Read the running flag and report it.
    CheckRunning,
    /// Run the export of the exporter at this index and report its result.
    Export(usize),
    /// Sleep this many seconds and report when awake.
    Sleep(u64),
    /// Return from the service.
    Stop,
}

/// What the driver reports to the control loop.
#[derive(Debug)]
pub enum LoopEvent {
    /// The value of the running flag.
    Running(bool),
    /// The result of the export that was asked for.
    Exported(Result<(), ExportError>),
    /// The pause is over.
    Woke,
}

/// The control loop: while the service runs, export every exporter in turn,
/// report the exports that fail, and pause between rounds.
#[derive(Debug)]
pub struct ExportLoop {
    pub exporter_count: usize,
    pub phase: LoopPhase,
}

/// The action that the loop awaits in a phase.
pub open spec fn pending(phase: LoopPhase) -> LoopAction {
    match phase {
        LoopPhase::Checking => LoopAction::CheckRunning,
        LoopPhase::Exporting(i) => LoopAction::Export(i),
        LoopPhase::Sleeping => LoopAction::Sleep(POLL_INTERVAL_SECS),
        LoopPhase::Stopped => LoopAction::Stop,
    }
}

/// The phase after the exporter at `i` of `count` has been exported.
pub open spec fn after_export(count: usize, i: usize) -> LoopPhase {
    if i + 1 < count {
        LoopPhase::Exporting((i + 1) as usize)
    } else {
        LoopPhase::Sleeping
    }
}

/// The phase that an event moves the loop to. An event that the phase does
/// not await leaves the phase as it is.
pub open spec fn next_phase(count: usize, phase: LoopPhase, event: LoopEvent) -> LoopPhase {
    match (phase, event) {
        (LoopPhase::Checking, LoopEvent::Running(true)) => if count > 0 {
            LoopPhase::Exporting(0)
        } else {
            LoopPhase::Sleeping
        },
        (LoopPhase::Checking, LoopEvent::Running(false)) => LoopPhase::Stopped,
        (LoopPhase::Exporting(i), LoopEvent::Exported(_)) => after_export(count, i),
        (LoopPhase::Sleeping, LoopEvent::Woke) => LoopPhase::Checking,
        _ => phase,
    }
}

/// The message that an event makes the loop report: a failed export, while
/// one was awaited.
pub open spec fn report(phase: LoopPhase, event: LoopEvent) -> Option<(Severity, Seq<char>)> {
    match (phase, event) {
        (LoopPhase::Exporting(_), LoopEvent::Exported(Err(e))) => Some(
            (Severity::Error, "Exporter error: "@ + e.message@),
        ),
        _ => None,
    }
}

/// The view of an optional report.
pub open spec fn report_view(r: Option<LogLine>) -> Option<(Severity, Seq<char>)> {
    match r {
        Some(l) => Some(l@),
        None => None,
    }
}

impl ExportLoop {
    /// Whether the phase names an existing exporter.
    pub open spec fn wf(&self) -> bool {
        self.phase matches LoopPhase::Exporting(i) ==> i < self.exporter_count
    }

    /// The loop over `exporter_count` exporters, about to check whether the
    /// service runs.
    pub fn new(exporter_count: usize) -> (l: ExportLoop)
        ensures
            l.wf(),
            l.exporter_count == exporter_count,
            l.phase == LoopPhase::Checking,
    {
        ExportLoop { exporter_count, phase: LoopPhase::Checking }
    }

    /// The action that the loop awaits now.
    pub fn pending(&self) -> (a: LoopAction)
        ensures
            a == pending(self.phase),
    {
        match self.phase {
            LoopPhase::Checking => LoopAction::CheckRunning,
            LoopPhase::Exporting(i) => LoopAction::Export(i),
            LoopPhase::Sleeping => LoopAction::Sleep(POLL_INTERVAL_SECS),
            LoopPhase::Stopped => LoopAction::Stop,
        }
    }

    /// Takes in what the driver reports, and returns the message to report
    /// (for a failed export) and the next action.
    pub fn step(&mut self, event: LoopEvent) -> (r: (Option<LogLine>, LoopAction))
        requires
            old(self).wf(),
        ensures
            final(self).wf(),
            final(self).exporter_count == old(self).exporter_count,
            final(self).phase == next_phase(old(self).exporter_count, old(self).phase, event),
            r.1 == pending(final(self).phase),
            report_view(r.0) == report(old(self).phase, event),
    {
        let mut message: Option<LogLine> = None;
        match (self.phase, event) {
            (LoopPhase::Checking, LoopEvent::Running(running)) => {
                if !running {
                    self.phase = LoopPhase::Stopped;
                } else if self.exporter_count > 0 {
                    self.phase = LoopPhase::Exporting(0);
                } else {
                    self.phase = LoopPhase::Sleeping;
                }
            },
            (LoopPhase::Exporting(i), LoopEvent::Exported(result)) => {
                if let Err(e) = result {
                    let text = String::from_str("Exporter error: ").concat(e.message.as_str());
                    message = Some(LogLine { severity: Severity::Error, message: text });
                }
                if i + 1 < self.exporter_count {
                    self.phase = LoopPhase::Exporting(i + 1);
                } else {
                    self.phase = LoopPhase::Sleeping;
                }
            },
            (LoopPhase::Sleeping, LoopEvent::Woke) => {
                self.phase = LoopPhase::Checking;
            },
            _ => {},
        }
        (message, self.pending())
    }
}

/// What the loop does from `phase` on the events `evs`: the phase it ends
/// in, the action it asks for after each event, and the report it makes on
/// each event.
pub open spec fn run_events(count: usize, phase: LoopPhase, evs: Seq<LoopEvent>) -> (
    LoopPhase,
    Seq<LoopAction>,
    Seq<Option<(Severity, Seq<char>)>>,
)
    decreases evs.len(),
{
    if evs.len() == 0 {
        (phase, Seq::empty(), Seq::empty())
    } else {
        let p = next_phase(count, phase, evs[0]);
        let rest = run_events(count, p, evs.drop_first());
        (rest.0, seq![pending(p)] + rest.1, seq![report(phase, evs[0])] + rest.2)
    }
}

/// The events that report the results of a round of exports.
pub open spec fn exported_events(results: Seq<Result<(), ExportError>>) -> Seq<LoopEvent> {
    results.map_values(|r: Result<(), ExportError>| LoopEvent::Exported(r))
}

/// The reports on a round of exports: one per failure, none per success.
pub open spec fn failure_reports(results: Seq<Result<(), ExportError>>) -> Seq<
    Option<(Severity, Seq<char>)>,
> {
    results.map_values(
        |r: Result<(), ExportError>|
            match r {
                Err(e) => Some((Severity::Error, "Exporter error: "@ + e.message@)),
                Ok(_) => None,
            },
    )
}

/// The exports of the exporters at `from` up to `to`, in order.
pub open spec fn export_actions(from: int, to: int) -> Seq<LoopAction> {
    Seq::new((to - from) as nat, |k: int| LoopAction::Export((from + k) as usize))
}

proof fn lemma_round_from(n: usize, i: int, results: Seq<Result<(), ExportError>>)
    requires
        results.len() == n,
        0 <= i < n,
    ensures
        run_events(
            n,
            LoopPhase::Exporting(i as usize),
            exported_events(results.subrange(i, n as int)) + seq![LoopEvent::Woke],
        ) == (
            LoopPhase::Checking,
            export_actions(i + 1, n as int) + seq![
                LoopAction::Sleep(POLL_INTERVAL_SECS),
                LoopAction::CheckRunning,
            ],
            failure_reports(results.subrange(i, n as int)) + seq![None],
        ),
    decreases n - i,
{
    let evs = exported_events(results.subrange(i, n as int)) + seq![LoopEvent::Woke];
    let tail = evs.drop_first();
    assert(evs[0] == LoopEvent::Exported(results[i]));
    let rep = report(LoopPhase::Exporting(i as usize), evs[0]);
    if i + 1 < n {
        assert(tail =~= exported_events(results.subrange(i + 1, n as int)) + seq![LoopEvent::Woke]);
        lemma_round_from(n, i + 1, results);
        assert(seq![LoopAction::Export((i + 1) as usize)] + (export_actions(i + 2, n as int)
            + seq![LoopAction::Sleep(POLL_INTERVAL_SECS), LoopAction::CheckRunning])
            =~= export_actions(i + 1, n as int) + seq![
            LoopAction::Sleep(POLL_INTERVAL_SECS),
            LoopAction::CheckRunning,
        ]);
        assert(seq![rep] + (failure_reports(results.subrange(i + 1, n as int)) + seq![None])
            =~= failure_reports(results.subrange(i, n as int)) + seq![None]);
    } else {
        assert(tail =~= seq![LoopEvent::Woke]);
        let r1 = run_events(n, LoopPhase::Sleeping, tail);
        assert(tail.drop_first() =~= Seq::<LoopEvent>::empty());
        assert(run_events(n, LoopPhase::Checking, tail.drop_first()) == (
            LoopPhase::Checking,
            Seq::<LoopAction>::empty(),
            Seq::<Option<(Severity, Seq<char>)>>::empty(),
        ));
        assert(r1.1 =~= seq![LoopAction::CheckRunning]);
        assert(r1.2 =~= seq![None]);
        assert(seq![LoopAction::Sleep(POLL_INTERVAL_SECS)] + r1.1 =~= export_actions(
            i + 1,
            n as int,
        ) + seq![LoopAction::Sleep(POLL_INTERVAL_SECS), LoopAction::CheckRunning]);
        assert(seq![rep] + r1.2 =~= failure_reports(results.subrange(i, n as int)) + seq![None]);
    }
}

/// A round of the control loop: once the running flag reads true, the loop
/// exports every exporter exactly once, in order, reports each failed export
/// (and nothing else), pauses for the poll interval, and then checks the
/// flag again.
pub proof fn law_round(n: usize, results: Seq<Result<(), ExportError>>)
    requires
        results.len() == n,
    ensures
        run_events(
            n,
            LoopPhase::Checking,
            seq![LoopEvent::Running(true)] + exported_events(results) + seq![LoopEvent::Woke],
        ) == (
            LoopPhase::Checking,
            export_actions(0, n as int) + seq![
                LoopAction::Sleep(POLL_INTERVAL_SECS),
                LoopAction::CheckRunning,
            ],
            seq![None] + failure_reports(results) + seq![None],
        ),
{
    let evs = seq![LoopEvent::Running(true)] + exported_events(results) + seq![LoopEvent::Woke];
    let tail = evs.drop_first();
    assert(tail =~= exported_events(results) + seq![LoopEvent::Woke]);
    assert(results.subrange(0, n as int) =~= results);
    if n > 0 {
        lemma_round_from(n, 0, results);
        assert(seq![LoopAction::Export(0)] + (export_actions(1, n as int) + seq![
            LoopAction::Sleep(POLL_INTERVAL_SECS),
            LoopAction::CheckRunning,
        ]) =~= export_actions(0, n as int) + seq![
            LoopAction::Sleep(POLL_INTERVAL_SECS),
            LoopAction::CheckRunning,
        ]);
        assert(seq![None] + (failure_reports(results) + seq![None]) =~= seq![None]
            + failure_reports(results) + seq![None]);
    } else {
        assert(tail =~= seq![LoopEvent::Woke]);
        assert(tail.drop_first() =~= Seq::<LoopEvent>::empty());
        assert(run_events(n, LoopPhase::Checking, tail.drop_first()) == (
            LoopPhase::Checking,
            Seq::<LoopAction>::empty(),
            Seq::<Option<(Severity, Seq<char>)>>::empty(),
        ));
        let r1 = run_events(n, LoopPhase::Sleeping, tail);
        assert(r1.1 =~= seq![LoopAction::CheckRunning]);
        assert(r1.2 =~= seq![None]);
        assert(seq![LoopAction::Sleep(POLL_INTERVAL_SECS)] + r1.1 =~= export_actions(0, 0) + seq![
            LoopAction::Sleep(POLL_INTERVAL_SECS),
            LoopAction::CheckRunning,
        ]);
        assert(failure_reports(results) =~= Seq::<Option<(Severity, Seq<char>)>>::empty());
        assert(seq![None] + r1.2 =~= seq![None] + failure_reports(results) + seq![None]);
    }
}

/// Stopping is final: once the running flag reads false the loop asks to
/// stop, and whatever it is told afterwards it keeps asking to stop and
/// reports nothing.
pub proof fn law_stop_is_final(n: usize, evs: Seq<LoopEvent>)
    ensures
        run_events(n, LoopPhase::Checking, seq![LoopEvent::Running(false)] + evs) == (
            LoopPhase::Stopped,
            Seq::new(evs.len() + 1, |k: int| LoopAction::Stop),
            Seq::new(evs.len() + 1, |k: int| None::<(Severity, Seq<char>)>),
        ),
{
    lemma_stopped(n, evs);
    assert((seq![LoopEvent::Running(false)] + evs).drop_first() =~= evs);
    assert(seq![LoopAction::Stop] + Seq::new(evs.len(), |k: int| LoopAction::Stop) =~= Seq::new(
        evs.len() + 1,
        |k: int| LoopAction::Stop,
    ));
    assert(seq![None::<(Severity, Seq<char>)>] + Seq::new(
        evs.len(),
        |k: int| None::<(Severity, Seq<char>)>,
    ) =~= Seq::new(evs.len() + 1, |k: int| None::<(Severity, Seq<char>)>));
}

proof fn lemma_stopped(n: usize, evs: Seq<LoopEvent>)
    ensures
        run_events(n, LoopPhase::Stopped, evs) == (
            LoopPhase::Stopped,
            Seq::new(evs.len(), |k: int| LoopAction::Stop),
            Seq::new(evs.len(), |k: int| None::<(Severity, Seq<char>)>),
        ),
    decreases evs.len(),
{
    if evs.len() > 0 {
        lemma_stopped(n, evs.drop_first());
        assert(seq![LoopAction::Stop] + Seq::new((evs.len() - 1) as nat, |k: int| LoopAction::Stop)
            =~= Seq::new(evs.len(), |k: int| LoopAction::Stop));
        assert(seq![None::<(Severity, Seq<char>)>] + Seq::new(
            (evs.len() - 1) as nat,
            |k: int| None::<(Severity, Seq<char>)>,
        ) =~= Seq::new(evs.len(), |k: int| None::<(Severity, Seq<char>)>));
    } else {
        assert(Seq::new(0, |k: int| LoopAction::Stop) =~= Seq::<LoopAction>::empty());
        assert(Seq::new(0, |k: int| None::<(Severity, Seq<char>)>) =~= Seq::<
            Option<(Severity, Seq<char>)>,
        >::empty());
    }
}

/// A control request that the service manager sends to the service.
#[derive(Debug, Clone, Copy, PartialEq, Eq, Structural)]
pub enum ServiceControl {
    /// The manager asks the service to stop.
    Stop,
    /// Any other request (pause, interrogate, ...).
    Other,
}

/// How the service answers a control request.
#[derive(Debug, Clone, Copy, PartialEq, Eq, Structural)]
pub enum ControlReply {
    NoError,
    NotImplemented,
}

/// The answer to a control request, and the new value of the running flag
/// when the request changes it: a stop request clears the flag and is
/// acknowledged; every other request is declined and changes nothing.
pub fn on_service_control(control: ServiceControl) -> (r: (ControlReply, Option<bool>))
    ensures
        r == match control {
            ServiceControl::Stop => (ControlReply::NoError, Some(false)),
            ServiceControl::Other => (ControlReply::NotImplemented, None::<bool>),
        },
{
    match control {
        ServiceControl::Stop => (ControlReply::NoError, Some(false)),
        ServiceControl::Other => (ControlReply::NotImplemented, None),
    }
}

/// The state that the service reports to the service manager.
#[derive(Debug, Clone, Copy, PartialEq, Eq, Structural)]
pub enum ServiceState {
    Running,
    Stopped,
}

/// A status report to the service manager.
#[derive(Debug, Clone, Copy, PartialEq, Eq, Structural)]
pub struct ServiceReport {
    pub state: ServiceState,
    /// Whether the service accepts stop requests.
    pub accepts_stop: bool,
    pub exit_code: u32,
    pub checkpoint: u32,
}

/// The status the service reports in `state`: while running it accepts stop
/// requests; once stopped it accepts none. Both report exit code 0 and
/// checkpoint 0.
pub fn service_report(state: ServiceState) -> (r: ServiceReport)
    ensures
        r.state == state,
        r.accepts_stop == (state == ServiceState::Running),
        r.exit_code == 0,
        r.checkpoint == 0,
{
    match state {
        ServiceState::Running => ServiceReport {
            state,
            accepts_stop: true,
            exit_code: 0,
            checkpoint: 0,
        },
        ServiceState::Stopped => ServiceReport {
            state,
            accepts_stop: false,
            exit_code: 0,
            checkpoint: 0,
        },
    }
}

/// The control loop pauses three seconds between two rounds of exports.
pub proof fn law_poll_interval()
    ensures
        POLL_INTERVAL_SECS == 3,
        pending(LoopPhase::Sleeping) == LoopAction::Sleep(3),
{
}

} // verus!
