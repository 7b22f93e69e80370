//! Keeping the whitelist sets in step with the whitelist file.

use crate::config::{ConfigView, DaemonConfig};
use crate::log::{add_line, log_texts, LogLine, LogText};
use crate::nft::{batch_outcome, batch_script, conclude_batch, generate_batch_script, NftRun};
use crate::parser::{
    examine_whitelist, whitelist_log, whitelist_result, EntryTexts, WhitelistEntries,
};
use crate::text::{cat2, cat4, lines, optional_text, same_str, text_view};
use vstd::prelude::*;

verus! {

// ---------------------------------------------------------------------------
// One synchronization
// ---------------------------------------------------------------------------

/// What was found at the path of the whitelist: nothing, a file that cannot
/// be read, with the system's message, or a file with its content.
pub enum WhitelistFile {
    Missing,
    Unreadable(String),
    Content(String),
}

/// The entries to put into the whitelist sets, and the script that does so.
pub struct Batch {
    pub entries: WhitelistEntries,
    pub script: String,
}

/// What to tell the operator, and then what to run.
pub struct SyncPlan {
    pub log: Vec<LogLine>,
    pub batch: Option<Batch>,
}

/// What the operator is told about the whitelist file.
pub open spec fn sync_log(config: ConfigView, file: WhitelistFile) -> Seq<LogText> {
    match file {
        WhitelistFile::Missing => seq![
            LogText::Stdout("[Gateway] Whitelist file not found: "@ + config.whitelist_path),
        ],
        WhitelistFile::Unreadable(e) => seq![
            LogText::Stderr(
                "[Gateway] Failed to read whitelist file "@ + config.whitelist_path + ": "@ + e@,
            ),
        ],
        WhitelistFile::Content(content) => whitelist_log(lines(content@)),
    }
}

/// The entries that the whitelist file asks for. Lines in error are left out;
/// without a readable file the sets stay as they are.
pub open spec fn entries_wanted(file: WhitelistFile) -> Option<EntryTexts> {
    match file {
        WhitelistFile::Content(content) => Some(whitelist_result(content@, false)->Ok_0),
        _ => None,
    }
}

/// The script that gives the sets of the configuration the entries.
pub open spec fn script_for(config: ConfigView, entries: EntryTexts) -> Seq<char> {
    batch_script(
        config.table_family,
        config.table_name,
        config.v4_set,
        config.v6_set,
        entries.v4,
        entries.v6,
    )
}

/// Decides what a synchronization does, from what was found at the path of the whitelist.
pub fn sync_whitelist(config: &DaemonConfig, file: &WhitelistFile) -> (r: SyncPlan)
    ensures
        log_texts(r.log@) == sync_log(config@, *file),
        match (r.batch, entries_wanted(*file)) {
            (Some(batch), Some(entries)) => {
                &&& batch.entries@ == entries
                &&& batch.script@ == script_for(config@, entries)
            },
            (None, None) => true,
            _ => false,
        },
{
    let mut log: Vec<LogLine> = Vec::new();
    assert(log_texts(log@) =~= Seq::empty());
    match file {
        WhitelistFile::Missing => {
            add_line(
                &mut log,
                LogLine::Stdout(
                    cat2("[Gateway] Whitelist file not found: ", config.whitelist_path.as_str()),
                ),
            );
            assert(log_texts(log@) =~= sync_log(config@, *file));
            SyncPlan { log, batch: None }
        },
        WhitelistFile::Unreadable(e) => {
            add_line(
                &mut log,
                LogLine::Stderr(
                    cat4(
                        "[Gateway] Failed to read whitelist file ",
                        config.whitelist_path.as_str(),
                        ": ",
                        e.as_str(),
                    ),
                ),
            );
            assert(log_texts(log@) =~= sync_log(config@, *file));
            SyncPlan { log, batch: None }
        },
        WhitelistFile::Content(content) => {
            let report = examine_whitelist(content.as_str(), false);
            let mut log = report.log;
            match report.result {
                Ok(entries) => {
                    let script = generate_batch_script(
                        config.table_family.as_str(),
                        config.table_name.as_str(),
                        config.v4_set.as_str(),
                        config.v6_set.as_str(),
                        &entries,
                    );
                    SyncPlan { log, batch: Some(Batch { entries, script }) }
                },
                Err(e) => {
                    add_line(
                        &mut log,
                        LogLine::Stderr(cat2("[Gateway] Failed to parse whitelist: ", e.as_str())),
                    );
                    SyncPlan { log, batch: None }
                },
            }
        },
    }
}

/// What the operator is told about the run of a whitelist script.
pub open spec fn sync_end_log(entries: EntryTexts, run: NftRun) -> Seq<LogText> {
    let outcome = batch_outcome(entries.v4, entries.v6, run);
    (match outcome.log {
        Some(line) => seq![line],
        None => Seq::empty(),
    }) + (match outcome.result {
        Ok(()) => Seq::empty(),
        Err(e) => seq![LogText::Stderr("[Gateway] Failed to update nftables sets: "@ + e)],
    })
}

/// Says what to tell the operator about the run of a whitelist script.
pub fn conclude_sync(entries: &WhitelistEntries, run: &NftRun) -> (r: Vec<LogLine>)
    ensures
        log_texts(r@) == sync_end_log(entries@, *run),
{
    let report = conclude_batch(entries, run);
    let mut log: Vec<LogLine> = Vec::new();
    assert(log_texts(log@) =~= Seq::empty());
    if let Some(line) = report.log {
        add_line(&mut log, line);
    }
    if let Err(e) = report.result {
        add_line(
            &mut log,
            LogLine::Stderr(cat2("[Gateway] Failed to update nftables sets: ", e.as_str())),
        );
    }
    assert(log_texts(log@) =~= sync_end_log(entries@, *run));
    log
}

// ---------------------------------------------------------------------------
// Notifications
// ---------------------------------------------------------------------------

/// What one read of the notification queue gave: the file names of its events,
/// where they have one, or why there are none. An error that is neither of the
/// two usual ones comes with the system's message.
pub enum ReadOutcome {
    Events(Vec<Option<String>>),
    WouldBlock,
    Interrupted,
    Failed(String),
}

/// Whether an event concerns the whitelist. One without a name does, and
/// without a name to compare with every event does.
pub open spec fn hits(name: Option<Seq<char>>, target: Option<Seq<char>>) -> bool {
    match (target, name) {
        (Some(t), Some(n)) => n == t,
        _ => true,
    }
}

/// Whether a read gave an event that concerns the whitelist.
pub open spec fn some_hit(outcome: ReadOutcome, target: Option<Seq<char>>) -> bool {
    outcome matches ReadOutcome::Events(names) && exists|i: int|
        0 <= i < names@.len() && hits(text_view(#[trigger] names@[i]), target)
}

/// Whether there may be more to read: there were events, or the read was cut short.
pub open spec fn more_to_read(outcome: ReadOutcome) -> bool {
    match outcome {
        ReadOutcome::Events(names) => names@.len() > 0,
        ReadOutcome::Interrupted => true,
        _ => false,
    }
}

/// Whether there may be more to throw away: there were events.
pub open spec fn more_to_drain(outcome: ReadOutcome) -> bool {
    outcome matches ReadOutcome::Events(names) && names@.len() > 0
}

/// What the operator is told about a read.
pub open spec fn read_log(outcome: ReadOutcome) -> Seq<LogText> {
    match outcome {
        ReadOutcome::Failed(e) => seq![LogText::Stderr("[Gateway] Inotify read error: "@ + e@)],
        _ => Seq::empty(),
    }
}

/// Whether an event concerns the whitelist.
fn is_hit(name: &Option<String>, target: Option<&str>) -> (r: bool)
    ensures
        r == hits(text_view(*name), optional_text(target)),
{
    match (target, name) {
        (Some(t), Some(n)) => same_str(n.as_str(), t),
        _ => true,
    }
}

/// What is known after a read of the notification queue.
pub struct ScanStep {
    /// Whether an event of this read or an earlier one concerns the whitelist.
    pub matched: bool,
    /// Whether to read on.
    pub more: bool,
    /// What to tell the operator.
    pub log: Vec<LogLine>,
}

/// Takes in one read of the notification queue. `matched` says whether an
/// earlier read gave an event that concerns the whitelist.
pub fn read_and_check_events(matched: bool, outcome: &ReadOutcome, target: Option<&str>) -> (r:
    ScanStep)
    ensures
        r.matched == (matched || some_hit(*outcome, optional_text(target))),
        r.more == more_to_read(*outcome),
        log_texts(r.log@) == read_log(*outcome),
{
    let mut log: Vec<LogLine> = Vec::new();
    assert(log_texts(log@) =~= Seq::empty());
    match outcome {
        ReadOutcome::Events(names) => {
            let mut hit = matched;
            for i in 0..names.len()
                invariant
                    hit <==> matched || exists|j: int|
                        0 <= j < i && hits(text_view(#[trigger] names@[j]), optional_text(target)),
            {
                if is_hit(&names[i], target) {
                    hit = true;
                    assert(hits(text_view(names@[i as int]), optional_text(target)));
                }
            }
            ScanStep { matched: hit, more: names.len() > 0, log }
        },
        ReadOutcome::WouldBlock => ScanStep { matched, more: false, log },
        ReadOutcome::Interrupted => ScanStep { matched, more: true, log },
        ReadOutcome::Failed(e) => {
            add_line(
                &mut log,
                LogLine::Stderr(cat2("[Gateway] Inotify read error: ", e.as_str())),
            );
            assert(log_texts(log@) =~= read_log(*outcome));
            ScanStep { matched, more: false, log }
        },
    }
}

/// Decides whether to go on throwing notifications away.
pub fn drain_inotify_events(outcome: &ReadOutcome) -> (r: bool)
    ensures
        r == more_to_drain(*outcome),
{
    match outcome {
        ReadOutcome::Events(names) => names.len() > 0,
        _ => false,
    }
}

/// `inotify::WatchMask::CLOSE_WRITE`: the bit for a file that was open for
/// writing and is closed.
#[verifier::external_body]
fn close_write() -> (r: u32)
    ensures
        r == 0x8,
{
    inotify::WatchMask::CLOSE_WRITE.bits()
}

/// `inotify::WatchMask::MOVED_TO`: the bit for a file that comes in by renaming.
#[verifier::external_body]
fn moved_to() -> (r: u32)
    ensures
        r == 0x80,
{
    inotify::WatchMask::MOVED_TO.bits()
}

/// `inotify::WatchMask::CREATE`: the bit for a file that is made.
#[verifier::external_body]
fn create() -> (r: u32)
    ensures
        r == 0x100,
{
    inotify::WatchMask::CREATE.bits()
}

/// `inotify::WatchMask::MODIFY`: the bit for a file that is written to.
#[verifier::external_body]
fn modify() -> (r: u32)
    ensures
        r == 0x2,
{
    inotify::WatchMask::MODIFY.bits()
}

/// `inotify::WatchMask::DELETE`: the bit for a file that goes.
#[verifier::external_body]
fn delete() -> (r: u32)
    ensures
        r == 0x200,
{
    inotify::WatchMask::DELETE.bits()
}

/// The bits of the events to watch for, in the directory of the whitelist and
/// in the whitelist itself: every way in which its content can change.
pub fn watched_events() -> (r: u32)
    ensures
        r == 0x8u32 | 0x80u32 | 0x100u32 | 0x2u32 | 0x200u32,
{
    close_write() | moved_to() | create() | modify() | delete()
}

// ---------------------------------------------------------------------------
// The loop
// ---------------------------------------------------------------------------

/// `libc::EINTR`: the error number of a call that a signal interrupted, on Linux.
#[verifier::external_body]
fn eintr() -> (r: i32)
    ensures
        r == 4,
{
    libc::EINTR
}

/// `libc::POLLIN`: the bit that says that there is something to read, on Linux.
#[verifier::external_body]
fn pollin() -> (r: i16)
    ensures
        r == 1,
{
    libc::POLLIN
}

/// What the daemon does next.
#[derive(Debug, Clone, Copy, PartialEq, Eq, Structural)]
pub enum Step {
    /// Look whether the directory of the whitelist is there.
    FindDirectory,
    /// Make the directory.
    MakeDirectory,
    /// Look whether the whitelist is there.
    FindFile,
    /// Make an empty whitelist.
    MakeFile,
    /// Synchronize before watching.
    FirstSync,
    /// Open the notification queue.
    Open,
    /// Watch the directory.
    WatchDirectory,
    /// Look whether the whitelist is there to be watched.
    FindFileToWatch,
    /// Watch the whitelist.
    WatchFile,
    /// Look whether a signal asked to end.
    CheckShutdown,
    /// Look whether a signal asked to reload.
    CheckReload,
    /// Synchronize because a signal asked for it.
    ReloadSync,
    /// Wait for notifications.
    Poll { timeout_ms: i32 },
    /// Sleep after an error.
    Pause { ms: u64 },
    /// Read notifications; `matched` says whether one so far concerns the whitelist.
    Read { matched: bool },
    /// Sleep until the change is complete.
    Debounce { ms: u64 },
    /// Throw the notifications about the same change away.
    Drain,
    /// Look whether the whitelist is there to be watched anew.
    FindFileToRewatch,
    /// Watch the whitelist anew.
    RewatchFile,
    /// Synchronize because the whitelist changed.
    ChangeSync,
    /// The loop came to its end.
    Finished,
    /// The loop could not be set up.
    Failed,
}

/// What the wait for notifications returned: the result and the events of the
/// call, and after an error its number and message.
pub struct PollReport {
    pub ret: i32,
    pub revents: i16,
    pub errno: Option<i32>,
    pub message: String,
}

/// What came of a step.
pub enum Answer {
    /// It is done, or failed in a way that does not matter.
    Done,
    /// What was looked for holds, or not.
    Holds(bool),
    /// It is done, or failed with the given message.
    Outcome(Result<(), String>),
    /// The wait returned.
    Polled(PollReport),
    /// A read returned.
    Notified(ReadOutcome),
}

/// What follows the wait for notifications.
pub open spec fn after_poll(report: PollReport) -> Step {
    if report.ret < 0 {
        if report.errno == Some(4i32) {
            Step::CheckShutdown
        } else {
            Step::Pause { ms: 100 }
        }
    } else if report.ret > 0 && report.revents & 1 != 0 {
        Step::Read { matched: false }
    } else {
        Step::CheckShutdown
    }
}

/// What follows a read that leaves nothing more to read.
pub open spec fn after_reads(config: ConfigView, matched: bool) -> Step {
    if matched {
        Step::Debounce { ms: config.debounce_ms }
    } else {
        Step::CheckShutdown
    }
}

/// What follows a step. An answer of another kind than the step asks for
/// leaves the step to be done.
pub open spec fn next_step(
    config: ConfigView,
    target: Option<Seq<char>>,
    step: Step,
    answer: Answer,
) -> Step {
    match (step, answer) {
        (Step::FindDirectory, Answer::Holds(found)) => if found {
            Step::FindFile
        } else {
            Step::MakeDirectory
        },
        (Step::MakeDirectory, Answer::Outcome(Ok(()))) => Step::FindFile,
        (Step::MakeDirectory, Answer::Outcome(Err(_))) => Step::Failed,
        (Step::FindFile, Answer::Holds(found)) => if found {
            Step::FirstSync
        } else {
            Step::MakeFile
        },
        (Step::MakeFile, Answer::Done) => Step::FirstSync,
        (Step::FirstSync, Answer::Done) => Step::Open,
        (Step::Open, Answer::Outcome(Ok(()))) => Step::WatchDirectory,
        (Step::Open, Answer::Outcome(Err(_))) => Step::Failed,
        (Step::WatchDirectory, Answer::Done) => Step::FindFileToWatch,
        (Step::FindFileToWatch, Answer::Holds(found)) => if found {
            Step::WatchFile
        } else {
            Step::CheckShutdown
        },
        (Step::WatchFile, Answer::Done) => Step::CheckShutdown,
        (Step::CheckShutdown, Answer::Holds(requested)) => if requested {
            Step::Finished
        } else {
            Step::CheckReload
        },
        (Step::CheckReload, Answer::Holds(requested)) => if requested {
            Step::ReloadSync
        } else {
            Step::Poll { timeout_ms: 500 }
        },
        (Step::ReloadSync, Answer::Done) => Step::Poll { timeout_ms: 500 },
        (Step::Poll { .. }, Answer::Polled(report)) => after_poll(report),
        (Step::Pause { .. }, Answer::Done) => Step::CheckShutdown,
        (Step::Read { matched }, Answer::Notified(outcome)) => if more_to_read(outcome) {
            Step::Read { matched: matched || some_hit(outcome, target) }
        } else {
            after_reads(config, matched || some_hit(outcome, target))
        },
        (Step::Debounce { .. }, Answer::Done) => Step::Drain,
        (Step::Drain, Answer::Notified(outcome)) => if more_to_drain(outcome) {
            Step::Drain
        } else {
            Step::FindFileToRewatch
        },
        (Step::FindFileToRewatch, Answer::Holds(found)) => if found {
            Step::RewatchFile
        } else {
            Step::ChangeSync
        },
        (Step::RewatchFile, Answer::Done) => Step::ChangeSync,
        (Step::ChangeSync, Answer::Done) => Step::CheckShutdown,
        _ => step,
    }
}

/// What the operator is told after a step.
pub open spec fn step_log(step: Step, answer: Answer) -> Seq<LogText> {
    match (step, answer) {
        (Step::MakeDirectory | Step::Open, Answer::Outcome(Err(e))) => seq![
            LogText::Stderr("[Gateway] Watcher error: "@ + e@),
        ],
        (Step::CheckShutdown, Answer::Holds(true)) => seq![
            LogText::Stdout("[Gateway] Exiting whitelist watcher gracefully..."@),
        ],
        (Step::CheckReload, Answer::Holds(true)) => seq![
            LogText::Stdout("[Gateway] Reload signal received, updating whitelist..."@),
        ],
        (Step::Poll { .. }, Answer::Polled(report)) => if report.ret < 0 && report.errno != Some(
            4i32,
        ) {
            seq![LogText::Stderr("[Gateway] Poll error: "@ + report.message@)]
        } else {
            Seq::empty()
        },
        (Step::Read { .. }, Answer::Notified(outcome)) => read_log(outcome),
        _ => Seq::empty(),
    }
}

/// What follows a step, and what to tell the operator before.
pub struct Advance {
    pub next: Step,
    pub log: Vec<LogLine>,
}

/// What follows, without a word.
fn quietly(next: Step) -> (r: Advance)
    ensures
        r.next == next,
        log_texts(r.log@) == Seq::<LogText>::empty(),
{
    let log: Vec<LogLine> = Vec::new();
    assert(log_texts(log@) =~= Seq::empty());
    Advance { next, log }
}

/// What follows, and one line.
fn telling(next: Step, line: LogLine) -> (r: Advance)
    ensures
        r.next == next,
        log_texts(r.log@) == seq![line@],
{
    let ghost text = line@;
    let mut log: Vec<LogLine> = Vec::new();
    assert(log_texts(log@) =~= Seq::empty());
    add_line(&mut log, line);
    assert(log_texts(log@) =~= seq![text]);
    Advance { next, log }
}

/// Decides what follows the wait for notifications.
fn advance_from_poll(report: &PollReport) -> (r: Advance)
    ensures
        r.next == after_poll(*report),
        log_texts(r.log@) == step_log(Step::Poll { timeout_ms: 0 }, Answer::Polled(*report)),
{
    if report.ret < 0 {
        let interrupted = match report.errno {
            Some(n) => n == eintr(),
            None => false,
        };
        if interrupted {
            return quietly(Step::CheckShutdown);
        }
        return telling(
            Step::Pause { ms: 100 },
            LogLine::Stderr(cat2("[Gateway] Poll error: ", report.message.as_str())),
        );
    }
    if report.ret > 0 && report.revents & pollin() != 0 {
        quietly(Step::Read { matched: false })
    } else {
        quietly(Step::CheckShutdown)
    }
}

/// Decides what follows a step of the setup that may fail.
fn advance_from_setup(step: Step, next: Step, outcome: &Result<(), String>) -> (r: Advance)
    requires
        step == Step::MakeDirectory || step == Step::Open,
    ensures
        r.next == (if *outcome is Ok {
            next
        } else {
            Step::Failed
        }),
        log_texts(r.log@) == step_log(step, Answer::Outcome(*outcome)),
{
    match outcome {
        Ok(()) => quietly(next),
        Err(e) => telling(
            Step::Failed,
            LogLine::Stderr(cat2("[Gateway] Watcher error: ", e.as_str())),
        ),
    }
}

/// Decides what follows a step of the watching daemon. `target` is the file
/// name of the whitelist, where its path has one.
pub fn advance(config: &DaemonConfig, target: Option<&str>, step: Step, answer: &Answer) -> (r:
    Advance)
    ensures
        r.next == next_step(config@, optional_text(target), step, *answer),
        log_texts(r.log@) == step_log(step, *answer),
{
    match (step, answer) {
        (Step::FindDirectory, Answer::Holds(found)) => if *found {
            quietly(Step::FindFile)
        } else {
            quietly(Step::MakeDirectory)
        },
        (Step::MakeDirectory, Answer::Outcome(outcome)) => advance_from_setup(
            step,
            Step::FindFile,
            outcome,
        ),
        (Step::FindFile, Answer::Holds(found)) => if *found {
            quietly(Step::FirstSync)
        } else {
            quietly(Step::MakeFile)
        },
        (Step::MakeFile, Answer::Done) => quietly(Step::FirstSync),
        (Step::FirstSync, Answer::Done) => quietly(Step::Open),
        (Step::Open, Answer::Outcome(outcome)) => advance_from_setup(
            step,
            Step::WatchDirectory,
            outcome,
        ),
        (Step::WatchDirectory, Answer::Done) => quietly(Step::FindFileToWatch),
        (Step::FindFileToWatch, Answer::Holds(found)) => if *found {
            quietly(Step::WatchFile)
        } else {
            quietly(Step::CheckShutdown)
        },
        (Step::WatchFile, Answer::Done) => quietly(Step::CheckShutdown),
        (Step::CheckShutdown, Answer::Holds(requested)) => if *requested {
            telling(
                Step::Finished,
                LogLine::Stdout("[Gateway] Exiting whitelist watcher gracefully...".to_owned()),
            )
        } else {
            quietly(Step::CheckReload)
        },
        (Step::CheckReload, Answer::Holds(requested)) => if *requested {
            telling(
                Step::ReloadSync,
                LogLine::Stdout(
                    "[Gateway] Reload signal received, updating whitelist...".to_owned(),
                ),
            )
        } else {
            quietly(Step::Poll { timeout_ms: 500 })
        },
        (Step::ReloadSync, Answer::Done) => quietly(Step::Poll { timeout_ms: 500 }),
        (Step::Poll { .. }, Answer::Polled(report)) => advance_from_poll(report),
        (Step::Pause { .. }, Answer::Done) => quietly(Step::CheckShutdown),
        (Step::Read { matched }, Answer::Notified(outcome)) => {
            let scan = read_and_check_events(matched, outcome, target);
            let next = if scan.more {
                Step::Read { matched: scan.matched }
            } else if scan.matched {
                Step::Debounce { ms: config.debounce_ms }
            } else {
                Step::CheckShutdown
            };
            Advance { next, log: scan.log }
        },
        (Step::Debounce { .. }, Answer::Done) => quietly(Step::Drain),
        (Step::Drain, Answer::Notified(outcome)) => if drain_inotify_events(outcome) {
            quietly(Step::Drain)
        } else {
            quietly(Step::FindFileToRewatch)
        },
        (Step::FindFileToRewatch, Answer::Holds(found)) => if *found {
            quietly(Step::RewatchFile)
        } else {
            quietly(Step::ChangeSync)
        },
        (Step::RewatchFile, Answer::Done) => quietly(Step::ChangeSync),
        (Step::ChangeSync, Answer::Done) => quietly(Step::CheckShutdown),
        _ => quietly(step),
    }
}

// ---------------------------------------------------------------------------
// Runs
// ---------------------------------------------------------------------------

/// Whether step `i + 1` of a run follows step `i`.
pub open spec fn follows(
    config: ConfigView,
    target: Option<Seq<char>>,
    steps: Seq<Step>,
    answers: Seq<Answer>,
    i: int,
) -> bool {
    steps[i + 1] == next_step(config, target, steps[i], answers[i])
}

/// Whether the steps are those of a daemon that gets the answers.
pub open spec fn is_run(
    config: ConfigView,
    target: Option<Seq<char>>,
    steps: Seq<Step>,
    answers: Seq<Answer>,
) -> bool {
    &&& steps.len() == answers.len() + 1
    &&& steps[0] == Step::FindDirectory
    &&& forall|i: int|
        0 <= i < answers.len() ==> #[trigger] follows(config, target, steps, answers, i)
}

/// Whether step `i` reads an event that concerns the whitelist.
pub open spec fn hit_at(
    target: Option<Seq<char>>,
    steps: Seq<Step>,
    answers: Seq<Answer>,
    i: int,
) -> bool {
    &&& steps[i] is Read
    &&& answers[i] matches Answer::Notified(outcome)
    &&& some_hit(outcome, target)
}

/// Whether the step is on the way from a change to its synchronization.
pub open spec fn is_pending(step: Step) -> bool {
    match step {
        Step::Read { matched } => matched,
        Step::Debounce { .. } | Step::Drain | Step::FindFileToRewatch | Step::RewatchFile => true,
        _ => false,
    }
}

/// Whether the step comes after the sleep that follows a change.
pub open spec fn is_debounced(step: Step) -> bool {
    step == Step::Drain || step == Step::FindFileToRewatch || step == Step::RewatchFile || step
        == Step::ChangeSync
}

/// Whether the step comes after the setup.
pub open spec fn is_watching(step: Step) -> bool {
    match step {
        Step::FindDirectory | Step::MakeDirectory | Step::FindFile | Step::MakeFile
        | Step::FirstSync | Step::Open | Step::Failed => false,
        _ => true,
    }
}

/// No change is lost: once an event that concerns the whitelist was read, the
/// daemon does nothing else until it synchronizes because of it.
pub proof fn a_change_is_not_lost(
    config: ConfigView,
    target: Option<Seq<char>>,
    steps: Seq<Step>,
    answers: Seq<Answer>,
    hit: int,
    k: int,
)
    requires
        is_run(config, target, steps, answers),
        0 <= hit < k < steps.len(),
        hit_at(target, steps, answers, hit),
        forall|i: int| hit < i < k ==> #[trigger] steps[i] != Step::ChangeSync,
    ensures
        is_pending(steps[k]) || steps[k] == Step::ChangeSync,
    decreases k - hit,
{
    assert(follows(config, target, steps, answers, k - 1));
    if k - 1 > hit {
        a_change_is_not_lost(config, target, steps, answers, hit, k - 1);
        assert(steps[k - 1] != Step::ChangeSync);
    }
}

/// A synchronization because of a change has a cause: an event that concerns
/// the whitelist was read before, the daemon has slept for the set time since,
/// and has done nothing but deal with the change.
pub proof fn a_change_sync_has_a_cause(
    config: ConfigView,
    target: Option<Seq<char>>,
    steps: Seq<Step>,
    answers: Seq<Answer>,
    k: int,
)
    requires
        is_run(config, target, steps, answers),
        0 <= k < steps.len(),
        steps[k] == Step::ChangeSync,
    ensures
        exists|hit: int, nap: int|
            0 <= hit < nap < k && #[trigger] hit_at(target, steps, answers, hit)
                && #[trigger] steps[nap] == (Step::Debounce { ms: config.debounce_ms })
                && forall|i: int|
                hit < i <= k ==> is_pending(#[trigger] steps[i]) || steps[i] == Step::ChangeSync,
{
    lemma_pending_has_a_cause(config, target, steps, answers, k);
    let hit = choose|hit: int| caused_by(target, steps, answers, hit, k);
    lemma_debounced_has_slept(config, target, steps, answers, hit, k);
    let nap = choose|nap: int|
        hit < nap < k && #[trigger] steps[nap] == (Step::Debounce { ms: config.debounce_ms });
    assert(hit_at(target, steps, answers, hit));
}

/// Whether step `k` deals with the event that step `hit` read.
spec fn caused_by(
    target: Option<Seq<char>>,
    steps: Seq<Step>,
    answers: Seq<Answer>,
    hit: int,
    k: int,
) -> bool {
    &&& 0 <= hit < k
    &&& hit_at(target, steps, answers, hit)
    &&& forall|i: int|
        hit < i <= k ==> is_pending(#[trigger] steps[i]) || steps[i] == Step::ChangeSync
}

/// What deals with a change was caused by one.
proof fn lemma_pending_has_a_cause(
    config: ConfigView,
    target: Option<Seq<char>>,
    steps: Seq<Step>,
    answers: Seq<Answer>,
    k: int,
)
    requires
        is_run(config, target, steps, answers),
        0 <= k < steps.len(),
        is_pending(steps[k]) || steps[k] == Step::ChangeSync,
    ensures
        exists|hit: int| caused_by(target, steps, answers, hit, k),
    decreases k,
{
    if k > 0 {
        assert(follows(config, target, steps, answers, k - 1));
        if is_pending(steps[k - 1]) || steps[k - 1] == Step::ChangeSync {
            let last = k - 1;
            lemma_pending_has_a_cause(config, target, steps, answers, last);
            let hit = choose|hit: int| caused_by(target, steps, answers, hit, last);
            assert(caused_by(target, steps, answers, hit, k));
        } else {
            assert(caused_by(target, steps, answers, k - 1, k));
        }
    }
}

/// Between the event and the steps after the sleep lies the sleep.
proof fn lemma_debounced_has_slept(
    config: ConfigView,
    target: Option<Seq<char>>,
    steps: Seq<Step>,
    answers: Seq<Answer>,
    hit: int,
    k: int,
)
    requires
        is_run(config, target, steps, answers),
        0 <= hit < k < steps.len(),
        caused_by(target, steps, answers, hit, k),
        is_debounced(steps[k]),
    ensures
        exists|nap: int|
            hit < nap < k && #[trigger] steps[nap] == (Step::Debounce { ms: config.debounce_ms }),
    decreases k,
{
    assert(follows(config, target, steps, answers, k - 1));
    assert(k - 1 > hit);
    assert(is_pending(steps[k - 1]) || steps[k - 1] == Step::ChangeSync);
    if is_debounced(steps[k - 1]) {
        assert(caused_by(target, steps, answers, hit, k - 1));
        lemma_debounced_has_slept(config, target, steps, answers, hit, k - 1);
    } else {
        lemma_debounce_time(config, target, steps, answers, k - 1);
    }
}

/// Every sleep after a change takes the set time.
proof fn lemma_debounce_time(
    config: ConfigView,
    target: Option<Seq<char>>,
    steps: Seq<Step>,
    answers: Seq<Answer>,
    k: int,
)
    requires
        is_run(config, target, steps, answers),
        0 <= k < steps.len(),
    ensures
        steps[k] is Debounce ==> steps[k] == (Step::Debounce { ms: config.debounce_ms }),
    decreases k,
{
    if k > 0 {
        assert(follows(config, target, steps, answers, k - 1));
        lemma_debounce_time(config, target, steps, answers, k - 1);
    }
}

/// Before each wait the daemon has looked whether to end, and was told to go
/// on, and has looked whether to reload, and has done so if asked.
pub proof fn a_wait_follows_the_signal_checks(
    config: ConfigView,
    target: Option<Seq<char>>,
    steps: Seq<Step>,
    answers: Seq<Answer>,
    k: int,
)
    requires
        is_run(config, target, steps, answers),
        0 < k < steps.len(),
        steps[k] is Poll,
        !(steps[k - 1] is Poll),
    ensures
        exists|c: int|
            0 < c < k && #[trigger] steps[c] == Step::CheckReload && answers[c - 1] == Answer::Holds(
                false,
            ) && steps[c - 1] == Step::CheckShutdown && (answers[c] == Answer::Holds(true)
                ==> steps[k - 1] == Step::ReloadSync) && forall|i: int|
                c < i < k ==> #[trigger] steps[i] == Step::CheckReload || steps[i]
                    == Step::ReloadSync,
{
    assert(follows(config, target, steps, answers, k - 1));
    lemma_check_origin(config, target, steps, answers, k - 1);
}

/// A reload check comes from a shutdown check that let the daemon go on.
proof fn lemma_check_origin(
    config: ConfigView,
    target: Option<Seq<char>>,
    steps: Seq<Step>,
    answers: Seq<Answer>,
    k: int,
)
    requires
        is_run(config, target, steps, answers),
        0 <= k < answers.len(),
        steps[k] == Step::CheckReload || steps[k] == Step::ReloadSync,
    ensures
        exists|c: int|
            0 < c <= k && #[trigger] steps[c] == Step::CheckReload && answers[c - 1]
                == Answer::Holds(false) && steps[c - 1] == Step::CheckShutdown && (answers[c]
                == Answer::Holds(true) && c < k ==> steps[k] == Step::ReloadSync) && forall|i: int|
                c < i <= k ==> #[trigger] steps[i] == Step::CheckReload || steps[i]
                    == Step::ReloadSync,
    decreases k,
{
    if k > 0 {
        assert(follows(config, target, steps, answers, k - 1));
        if steps[k - 1] == Step::CheckShutdown {
            assert(steps[k] == Step::CheckReload);
        } else {
            lemma_check_origin(config, target, steps, answers, k - 1);
        }
    }
}

/// The daemon watches only after it has synchronized once.
pub proof fn watching_follows_a_sync(
    config: ConfigView,
    target: Option<Seq<char>>,
    steps: Seq<Step>,
    answers: Seq<Answer>,
    k: int,
)
    requires
        is_run(config, target, steps, answers),
        0 <= k < steps.len(),
        is_watching(steps[k]),
    ensures
        exists|i: int| 0 <= i < k && #[trigger] steps[i] == Step::FirstSync,
    decreases k,
{
    if k > 0 {
        assert(follows(config, target, steps, answers, k - 1));
        if is_watching(steps[k - 1]) {
            watching_follows_a_sync(config, target, steps, answers, k - 1);
        } else {
            lemma_open_follows_a_sync(config, target, steps, answers, k - 1);
        }
    }
}

/// The notification queue is opened only after a synchronization.
proof fn lemma_open_follows_a_sync(
    config: ConfigView,
    target: Option<Seq<char>>,
    steps: Seq<Step>,
    answers: Seq<Answer>,
    k: int,
)
    requires
        is_run(config, target, steps, answers),
        0 <= k < steps.len(),
        steps[k] == Step::Open,
    ensures
        exists|i: int| 0 <= i < k && #[trigger] steps[i] == Step::FirstSync,
    decreases k,
{
    if k > 0 {
        assert(follows(config, target, steps, answers, k - 1));
        if steps[k - 1] == Step::Open {
            lemma_open_follows_a_sync(config, target, steps, answers, k - 1);
        }
    }
}

/// Whether the step belongs to the loop that follows the setup.
pub open spec fn is_looping(step: Step) -> bool {
    is_watching(step) && step != Step::WatchDirectory && step != Step::FindFileToWatch && step
        != Step::WatchFile
}

/// Whether step `d` watched the directory, step `f` behind it looked for the
/// whitelist, and a step between that and step `k` watched it if it was there.
pub open spec fn watched_before(
    steps: Seq<Step>,
    answers: Seq<Answer>,
    d: int,
    f: int,
    k: int,
) -> bool {
    &&& 0 <= d < f < k
    &&& steps[d] == Step::WatchDirectory
    &&& answers[d] == Answer::Done
    &&& steps[f] == Step::FindFileToWatch
    &&& answers[f] is Holds
    &&& answers[f] == Answer::Holds(true) ==> exists|w: int|
        f < w < k && #[trigger] steps[w] == Step::WatchFile && answers[w] == Answer::Done
}

/// Before the daemon looks for signals or waits for the first time, it has
/// watched the directory of the whitelist, and then the whitelist itself if it
/// was there.
pub proof fn waiting_follows_the_watches(
    config: ConfigView,
    target: Option<Seq<char>>,
    steps: Seq<Step>,
    answers: Seq<Answer>,
    k: int,
)
    requires
        is_run(config, target, steps, answers),
        0 <= k < steps.len(),
        is_looping(steps[k]),
    ensures
        exists|d: int, f: int| #[trigger] watched_before(steps, answers, d, f, k),
    decreases k,
{
    if k > 0 {
        let last = k - 1;
        assert(follows(config, target, steps, answers, last));
        if is_looping(steps[last]) {
            waiting_follows_the_watches(config, target, steps, answers, last);
            let (d, f) = choose|d: int, f: int| #[trigger] watched_before(steps, answers, d, f, last);
            if answers[f] == Answer::Holds(true) {
                let w = choose|w: int|
                    f < w < last && #[trigger] steps[w] == Step::WatchFile && answers[w]
                        == Answer::Done;
                assert(f < w < k && steps[w] == Step::WatchFile);
            }
            assert(watched_before(steps, answers, d, f, k));
        } else if steps[last] == Step::WatchFile {
            lemma_file_watch_origin(config, target, steps, answers, last);
            let f = choose|f: int|
                0 <= f < last && #[trigger] steps[f] == Step::FindFileToWatch && answers[f]
                    == Answer::Holds(true);
            lemma_directory_watch_origin(config, target, steps, answers, f);
            let d = choose|d: int|
                0 <= d < f && #[trigger] steps[d] == Step::WatchDirectory && answers[d]
                    == Answer::Done;
            assert(f < last < k && steps[last] == Step::WatchFile);
            assert(watched_before(steps, answers, d, f, k));
        } else {
            lemma_directory_watch_origin(config, target, steps, answers, last);
            let d = choose|d: int|
                0 <= d < last && #[trigger] steps[d] == Step::WatchDirectory && answers[d]
                    == Answer::Done;
            assert(watched_before(steps, answers, d, last, k));
        }
    }
}

/// The whitelist is watched first because it was found.
proof fn lemma_file_watch_origin(
    config: ConfigView,
    target: Option<Seq<char>>,
    steps: Seq<Step>,
    answers: Seq<Answer>,
    k: int,
)
    requires
        is_run(config, target, steps, answers),
        0 <= k < steps.len(),
        steps[k] == Step::WatchFile,
    ensures
        exists|f: int|
            0 <= f < k && #[trigger] steps[f] == Step::FindFileToWatch && answers[f]
                == Answer::Holds(true),
    decreases k,
{
    if k > 0 {
        assert(follows(config, target, steps, answers, k - 1));
        if steps[k - 1] == Step::WatchFile {
            lemma_file_watch_origin(config, target, steps, answers, k - 1);
        } else {
            assert(steps[k - 1] == Step::FindFileToWatch);
        }
    }
}

/// The whitelist is looked for once its directory is watched.
proof fn lemma_directory_watch_origin(
    config: ConfigView,
    target: Option<Seq<char>>,
    steps: Seq<Step>,
    answers: Seq<Answer>,
    k: int,
)
    requires
        is_run(config, target, steps, answers),
        0 <= k < steps.len(),
        steps[k] == Step::FindFileToWatch,
    ensures
        exists|d: int|
            0 <= d < k && #[trigger] steps[d] == Step::WatchDirectory && answers[d]
                == Answer::Done,
    decreases k,
{
    if k > 0 {
        assert(follows(config, target, steps, answers, k - 1));
        if steps[k - 1] == Step::FindFileToWatch {
            lemma_directory_watch_origin(config, target, steps, answers, k - 1);
        } else {
            assert(steps[k - 1] == Step::WatchDirectory);
        }
    }
}

/// The daemon ends when it looks for a request to end and there is one, and
/// not otherwise; then it does nothing more.
pub proof fn the_end_is_asked_for(
    config: ConfigView,
    target: Option<Seq<char>>,
    steps: Seq<Step>,
    answers: Seq<Answer>,
    k: int,
)
    requires
        is_run(config, target, steps, answers),
        0 <= k < answers.len(),
    ensures
        steps[k + 1] == Step::Finished <==> steps[k] == Step::Finished || (steps[k]
            == Step::CheckShutdown && answers[k] == Answer::Holds(true)),
{
    assert(follows(config, target, steps, answers, k));
}

} // verus!
