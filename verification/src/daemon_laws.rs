//! What the daemon does on each occasion.

use crate::config::ConfigView;
use crate::log::LogText;
use crate::nft::NftRun;
use crate::parser::{whitelist_log, whitelist_result, EntryTexts};
use crate::ruleset_laws::{refilled, the_whitelist_script_refills_the_sets};
use crate::signals::{after_check, after_signal, SignalFlags};
use crate::text::{lines, text_view, trim};
use crate::watcher::{
    entries_wanted, hits, more_to_drain, more_to_read, next_step, read_log, script_for, some_hit,
    step_log, sync_end_log, sync_log, Answer, PollReport, ReadOutcome, Step, WhitelistFile,
};
use vstd::prelude::*;

verus! {

// ---------------------------------------------------------------------------
// Notifications
// ---------------------------------------------------------------------------

/// Whether event `i` has no name, or has that of the whitelist, or the
/// whitelist has none.
pub open spec fn concerns(names: Seq<Option<String>>, i: int, target: Option<Seq<char>>) -> bool {
    0 <= i < names.len() && (names[i] is None || target is None || Some(names[i]->0@) == target)
}

/// A read counts as a change if and only if some event of it, at whatever
/// position, has no name or has the name of the whitelist; where the whitelist
/// has no name, every event counts.
pub proof fn an_event_counts_at_any_position(
    names: Vec<Option<String>>,
    target: Option<Seq<char>>,
)
    ensures
        some_hit(ReadOutcome::Events(names), target) <==> exists|i: int|
            #[trigger] concerns(names@, i, target),
{
    let outcome = ReadOutcome::Events(names);
    if some_hit(outcome, target) {
        let i = choose|i: int|
            0 <= i < names@.len() && hits(text_view(#[trigger] names@[i]), target);
        assert(concerns(names@, i, target));
    }
    if exists|i: int| #[trigger] concerns(names@, i, target) {
        let i = choose|i: int| #[trigger] concerns(names@, i, target);
        assert(hits(text_view(names@[i]), target));
    }
}

/// A read without events is no change.
pub proof fn without_events_there_is_no_change(target: Option<Seq<char>>, error: String)
    ensures
        !some_hit(ReadOutcome::WouldBlock, target),
        !some_hit(ReadOutcome::Interrupted, target),
        !some_hit(ReadOutcome::Failed(error), target),
{
}

/// More events never turn a change into none, before or behind what was there;
/// nor do events about other files turn none into a change.
pub proof fn more_events_lose_no_change(
    names: Vec<Option<String>>,
    more: Vec<Option<String>>,
    both: Vec<Option<String>>,
    target: Option<Seq<char>>,
)
    requires
        both@ == names@ + more@,
    ensures
        some_hit(ReadOutcome::Events(both), target) <==> some_hit(
            ReadOutcome::Events(names),
            target,
        ) || some_hit(ReadOutcome::Events(more), target),
        (forall|i: int|
            0 <= i < more@.len() ==> (#[trigger] more@[i]) is Some && target is Some && Some(
                more@[i]->0@,
            ) != target)
            ==> some_hit(ReadOutcome::Events(both), target) == some_hit(
            ReadOutcome::Events(names),
            target,
        ),
{
    an_event_counts_at_any_position(names, target);
    an_event_counts_at_any_position(more, target);
    an_event_counts_at_any_position(both, target);
    if some_hit(ReadOutcome::Events(both), target) {
        let i = choose|i: int| #[trigger] concerns(both@, i, target);
        if i < names@.len() {
            assert(concerns(names@, i, target));
        } else {
            assert(both@[i] == more@[i - names@.len()]);
            assert(concerns(more@, i - names@.len(), target));
        }
    }
    if some_hit(ReadOutcome::Events(names), target) {
        let i = choose|i: int| #[trigger] concerns(names@, i, target);
        assert(concerns(both@, i, target));
    }
    if some_hit(ReadOutcome::Events(more), target) {
        let i = choose|i: int| #[trigger] concerns(more@, i, target);
        assert(concerns(both@, i + names@.len(), target));
    }
}

/// The daemon reads on while there are events or a read was interrupted. Then
/// it sleeps for the set time if any event of any of these reads concerned the
/// whitelist, and goes back to its round if none did.
pub proof fn reads_are_remembered(
    config: ConfigView,
    target: Option<Seq<char>>,
    matched: bool,
    names: Vec<Option<String>>,
    i: int,
    error: String,
)
    ensures
        ({
            let after = |outcome: ReadOutcome|
                next_step(config, target, Step::Read { matched }, Answer::Notified(outcome));
            let over = if matched {
                Step::Debounce { ms: config.debounce_ms }
            } else {
                Step::CheckShutdown
            };
            &&& concerns(names@, i, target) ==> after(ReadOutcome::Events(names)) == (Step::Read {
                matched: true,
            })
            &&& names@.len() > 0 && (forall|j: int| !#[trigger] concerns(names@, j, target)) ==> after(
                ReadOutcome::Events(names),
            ) == (Step::Read { matched })
            &&& names@.len() == 0 ==> after(ReadOutcome::Events(names)) == over
            &&& after(ReadOutcome::Interrupted) == (Step::Read { matched })
            &&& after(ReadOutcome::WouldBlock) == over
            &&& after(ReadOutcome::Failed(error)) == over
        }),
{
    an_event_counts_at_any_position(names, target);
}

/// There may be more to read after events or an interruption, and more to
/// throw away after events alone; only an error is told about.
pub proof fn reading_goes_on_while_there_are_events(names: Vec<Option<String>>, error: String)
    ensures
        more_to_read(ReadOutcome::Events(names)) <==> names@.len() > 0,
        more_to_read(ReadOutcome::Interrupted),
        !more_to_read(ReadOutcome::WouldBlock),
        !more_to_read(ReadOutcome::Failed(error)),
        more_to_drain(ReadOutcome::Events(names)) <==> names@.len() > 0,
        !more_to_drain(ReadOutcome::Interrupted),
        !more_to_drain(ReadOutcome::WouldBlock),
        !more_to_drain(ReadOutcome::Failed(error)),
        read_log(ReadOutcome::Events(names)) == Seq::<LogText>::empty(),
        read_log(ReadOutcome::Interrupted) == Seq::<LogText>::empty(),
        read_log(ReadOutcome::WouldBlock) == Seq::<LogText>::empty(),
        read_log(ReadOutcome::Failed(error)) == seq![
            LogText::Stderr("[Gateway] Inotify read error: "@ + error@),
        ],
{
}

/// The wait ends in a read if and only if it reports something to read. An
/// error that is not an interruption by a signal is told and slept over; all
/// else goes back to the round without a word.
pub proof fn a_wait_ends_in_a_read_or_the_round(
    config: ConfigView,
    target: Option<Seq<char>>,
    timeout_ms: i32,
    report: PollReport,
)
    ensures
        ({
            let step = Step::Poll { timeout_ms };
            let next = next_step(config, target, step, Answer::Polled(report));
            let log = step_log(step, Answer::Polled(report));
            let failed = report.ret < 0 && report.errno != Some(4i32);
            let readable = report.ret > 0 && report.revents & 1 != 0;
            &&& failed ==> next == (Step::Pause { ms: 100 }) && log == seq![
                LogText::Stderr("[Gateway] Poll error: "@ + report.message@),
            ]
            &&& !failed ==> log == Seq::<LogText>::empty()
            &&& readable ==> next == (Step::Read { matched: false })
            &&& !failed && !readable ==> next == Step::CheckShutdown
        }),
{
}

// ---------------------------------------------------------------------------
// The round
// ---------------------------------------------------------------------------

/// The setup makes the directory and the whitelist only where they are
/// missing, synchronizes before it opens the queue, and watches the directory
/// before the whitelist, which it watches only where it is there.
pub proof fn the_setup_makes_what_is_missing(
    config: ConfigView,
    target: Option<Seq<char>>,
    found: bool,
)
    ensures
        ({
            let after = |step: Step, answer: Answer| next_step(config, target, step, answer);
            &&& after(Step::FindDirectory, Answer::Holds(found)) == (if found {
                Step::FindFile
            } else {
                Step::MakeDirectory
            })
            &&& after(Step::MakeDirectory, Answer::Outcome(Ok(()))) == Step::FindFile
            &&& after(Step::FindFile, Answer::Holds(found)) == (if found {
                Step::FirstSync
            } else {
                Step::MakeFile
            })
            &&& after(Step::MakeFile, Answer::Done) == Step::FirstSync
            &&& after(Step::FirstSync, Answer::Done) == Step::Open
            &&& after(Step::Open, Answer::Outcome(Ok(()))) == Step::WatchDirectory
            &&& after(Step::WatchDirectory, Answer::Done) == Step::FindFileToWatch
            &&& after(Step::FindFileToWatch, Answer::Holds(found)) == (if found {
                Step::WatchFile
            } else {
                Step::CheckShutdown
            })
            &&& after(Step::WatchFile, Answer::Done) == Step::CheckShutdown
        }),
{
}

/// The daemon gives up if and only if the directory cannot be made or the
/// queue cannot be opened, says why, and then does nothing more.
pub proof fn the_daemon_gives_up_only_in_the_setup(
    config: ConfigView,
    target: Option<Seq<char>>,
    step: Step,
    answer: Answer,
)
    ensures
        ({
            let stuck = (step == Step::MakeDirectory || step == Step::Open) && (
            answer matches Answer::Outcome(r) && r is Err);
            &&& next_step(config, target, step, answer) == Step::Failed <==> step == Step::Failed
                || stuck
            &&& stuck ==> step_log(step, answer) == seq![
                LogText::Stderr("[Gateway] Watcher error: "@ + answer->Outcome_0->Err_0@),
            ]
            &&& step == Step::Failed || step == Step::Finished ==> next_step(
                config,
                target,
                step,
                answer,
            ) == step && step_log(step, answer) == Seq::<LogText>::empty()
        }),
{
}

/// In each round the daemon looks for a request to end, then for one to
/// reload, which it follows at once, and then waits half a second at most.
pub proof fn a_round_heeds_the_signals(
    config: ConfigView,
    target: Option<Seq<char>>,
    ms: u64,
    asked: bool,
)
    ensures
        ({
            let after = |step: Step, answer: Answer| next_step(config, target, step, answer);
            &&& after(Step::CheckShutdown, Answer::Holds(asked)) == (if asked {
                Step::Finished
            } else {
                Step::CheckReload
            })
            &&& after(Step::CheckReload, Answer::Holds(asked)) == (if asked {
                Step::ReloadSync
            } else {
                Step::Poll { timeout_ms: 500 }
            })
            &&& after(Step::ReloadSync, Answer::Done) == (Step::Poll { timeout_ms: 500 })
            &&& after(Step::Pause { ms }, Answer::Done) == Step::CheckShutdown
            &&& step_log(Step::CheckShutdown, Answer::Holds(true)) == seq![
                LogText::Stdout("[Gateway] Exiting whitelist watcher gracefully..."@),
            ]
            &&& step_log(Step::CheckReload, Answer::Holds(true)) == seq![
                LogText::Stdout("[Gateway] Reload signal received, updating whitelist..."@),
            ]
            &&& step_log(Step::CheckShutdown, Answer::Holds(false)) == Seq::<LogText>::empty()
            &&& step_log(Step::CheckReload, Answer::Holds(false)) == Seq::<LogText>::empty()
        }),
{
}

/// After the sleep the daemon throws away what is queued, read by read until a
/// read gives no event, then watches the whitelist anew if it is there, and
/// synchronizes.
pub proof fn a_change_is_drained_and_synchronized(
    config: ConfigView,
    target: Option<Seq<char>>,
    ms: u64,
    outcome: ReadOutcome,
    found: bool,
)
    ensures
        ({
            let after = |step: Step, answer: Answer| next_step(config, target, step, answer);
            let some_event = outcome matches ReadOutcome::Events(names) && names@.len() > 0;
            &&& after(Step::Debounce { ms }, Answer::Done) == Step::Drain
            &&& after(Step::Drain, Answer::Notified(outcome)) == (if some_event {
                Step::Drain
            } else {
                Step::FindFileToRewatch
            })
            &&& after(Step::FindFileToRewatch, Answer::Holds(found)) == (if found {
                Step::RewatchFile
            } else {
                Step::ChangeSync
            })
            &&& after(Step::RewatchFile, Answer::Done) == Step::ChangeSync
            &&& after(Step::ChangeSync, Answer::Done) == Step::CheckShutdown
        }),
{
}

/// Whether the answer is of the kind that the step asks for.
pub open spec fn answers(step: Step, answer: Answer) -> bool {
    match step {
        Step::FindDirectory | Step::FindFile | Step::FindFileToWatch | Step::FindFileToRewatch
        | Step::CheckShutdown | Step::CheckReload => answer is Holds,
        Step::MakeDirectory | Step::Open => answer is Outcome,
        Step::Poll { .. } => answer is Polled,
        Step::Read { .. } | Step::Drain => answer is Notified,
        Step::Finished | Step::Failed => false,
        _ => answer is Done,
    }
}

/// A step is done until it gets an answer of its kind, and without that
/// nothing is told.
pub proof fn a_step_waits_for_its_answer(
    config: ConfigView,
    target: Option<Seq<char>>,
    step: Step,
    answer: Answer,
)
    requires
        !answers(step, answer),
    ensures
        next_step(config, target, step, answer) == step,
        step_log(step, answer) == Seq::<LogText>::empty(),
{
}

/// A read that fails is told about; other reads, and steps that only do
/// something, are not.
pub proof fn a_failed_read_is_told_about(
    step: Step,
    matched: bool,
    outcome: ReadOutcome,
    error: String,
)
    ensures
        step_log(Step::Read { matched }, Answer::Notified(ReadOutcome::Failed(error))) == seq![
            LogText::Stderr("[Gateway] Inotify read error: "@ + error@),
        ],
        !(outcome is Failed) ==> step_log(Step::Read { matched }, Answer::Notified(outcome))
            == Seq::<LogText>::empty(),
        step_log(Step::Drain, Answer::Notified(outcome)) == Seq::<LogText>::empty(),
        step_log(step, Answer::Done) == Seq::<LogText>::empty(),
        step_log(step, Answer::Outcome(Ok(()))) == Seq::<LogText>::empty(),
{
}

// ---------------------------------------------------------------------------
// Synchronization
// ---------------------------------------------------------------------------

/// A whitelist that can be read is applied, whatever its lines are: the sets
/// of the settings are emptied and filled with the entries that a reading
/// without strictness gives. A missing or unreadable one leaves the sets as
/// they are, and is told about.
pub proof fn a_readable_whitelist_is_applied(config: ConfigView, content: String, error: String)
    ensures
        ({
            let r = whitelist_result(content@, false);
            let entries = r->Ok_0;
            &&& r is Ok
            &&& entries_wanted(WhitelistFile::Content(content)) == Some(entries)
            &&& script_for(config, entries) == refilled(
                config.table_family,
                config.table_name,
                config.v4_set,
                entries.v4,
            ) + refilled(config.table_family, config.table_name, config.v6_set, entries.v6)
            &&& sync_log(config, WhitelistFile::Content(content)) == whitelist_log(lines(content@))
            &&& entries_wanted(WhitelistFile::Missing) is None
            &&& sync_log(config, WhitelistFile::Missing) == seq![
                LogText::Stdout("[Gateway] Whitelist file not found: "@ + config.whitelist_path),
            ]
            &&& entries_wanted(WhitelistFile::Unreadable(error)) is None
            &&& sync_log(config, WhitelistFile::Unreadable(error)) == seq![
                LogText::Stderr(
                    "[Gateway] Failed to read whitelist file "@ + config.whitelist_path + ": "@
                        + error@,
                ),
            ]
        }),
{
    let entries = whitelist_result(content@, false)->Ok_0;
    the_whitelist_script_refills_the_sets(
        config.table_family,
        config.table_name,
        config.v4_set,
        config.v6_set,
        entries.v4,
        entries.v6,
    );
}

/// A whitelist that could not be applied is told about, whatever went wrong,
/// and the last line says why; one that was applied is told about once.
pub proof fn a_failed_synchronization_is_told_about(
    entries: EntryTexts,
    e: String,
    stderr: String,
)
    ensures
        ({
            let log = |run: NftRun| sync_end_log(entries, run);
            let line = |message: Seq<char>|
                LogText::Stderr("[Gateway] Failed to update nftables sets: "@ + message);
            &&& log(NftRun::SpawnFailed(e)) == seq![line("Failed to spawn 'nft': "@ + e@)]
            &&& log(NftRun::WriteFailed(e)) == seq![line("Failed to write to nft stdin: "@ + e@)]
            &&& log(NftRun::WaitFailed(e)) == seq![line("Failed to wait for nft: "@ + e@)]
            &&& log(NftRun::Finished { success: false, stderr }) == seq![
                LogText::Stderr("[Gateway] Error applying nftables batch: "@ + trim(stderr@)),
                line(trim(stderr@)),
            ]
            &&& log(NftRun::Finished { success: true, stderr }).len() == 1
            &&& log(NftRun::Finished { success: true, stderr })[0] is Stdout
        }),
{
    let line = |message: Seq<char>|
        LogText::Stderr("[Gateway] Failed to update nftables sets: "@ + message);
    assert(sync_end_log(entries, NftRun::SpawnFailed(e)) =~= seq![
        line("Failed to spawn 'nft': "@ + e@),
    ]);
    assert(sync_end_log(entries, NftRun::WriteFailed(e)) =~= seq![
        line("Failed to write to nft stdin: "@ + e@),
    ]);
    assert(sync_end_log(entries, NftRun::WaitFailed(e)) =~= seq![
        line("Failed to wait for nft: "@ + e@),
    ]);
    assert(sync_end_log(entries, NftRun::Finished { success: false, stderr }) =~= seq![
        LogText::Stderr("[Gateway] Error applying nftables batch: "@ + trim(stderr@)),
        line(trim(stderr@)),
    ]);
}

// ---------------------------------------------------------------------------
// Signals
// ---------------------------------------------------------------------------

/// Signals 2 and 15 ask to end and signal 1 asks to reload; no signal takes a
/// request back, and other signals ask for nothing. A check takes up the
/// request to reload alone.
pub proof fn signals_ask_by_their_number(flags: SignalFlags, sig: i32)
    ensures
        after_signal(flags, 2) == (SignalFlags { shutdown: true, reload: flags.reload }),
        after_signal(flags, 15) == (SignalFlags { shutdown: true, reload: flags.reload }),
        after_signal(flags, 1) == (SignalFlags { shutdown: flags.shutdown, reload: true }),
        sig != 1 && sig != 2 && sig != 15 ==> after_signal(flags, sig) == flags,
        after_check(flags) == (SignalFlags { shutdown: flags.shutdown, reload: false }),
{
}

} // verus!
