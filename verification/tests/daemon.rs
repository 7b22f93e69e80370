use nft_egress_daemon::config::DaemonConfig;
use nft_egress_daemon::log::LogLine;
use nft_egress_daemon::nft::NftRun;
use nft_egress_daemon::place::watch_place;
use nft_egress_daemon::signals::{
    check_and_clear_reload, is_shutdown_requested, sig_handler, SignalFlags,
};
use nft_egress_daemon::startup::{
    after_load, after_read, begin_search, initialize_rules_and_dns, rules_candidates, SearchStep,
    StartupAction,
};
use nft_egress_daemon::watcher::{
    advance, conclude_sync, drain_inotify_events, read_and_check_events, sync_whitelist,
    watched_events, Answer, PollReport, ReadOutcome, Step, WhitelistFile,
};

fn out(text: &str) -> LogLine {
    LogLine::Stdout(text.to_string())
}

fn err(text: &str) -> LogLine {
    LogLine::Stderr(text.to_string())
}

fn events(names: &[Option<&str>]) -> ReadOutcome {
    ReadOutcome::Events(names.iter().map(|n| n.map(|s| s.to_string())).collect())
}

fn next(step: Step, answer: Answer) -> Step {
    advance(&DaemonConfig::default(), Some("whitelist.txt"), step, &answer).next
}

fn polled(ret: i32, revents: i16, errno: Option<i32>) -> Answer {
    Answer::Polled(PollReport { ret, revents, errno, message: "broken".to_string() })
}

#[test]
fn signals_set_their_flags() {
    let mut flags = SignalFlags::default();
    assert!(!is_shutdown_requested(&flags));
    sig_handler(&mut flags, libc::SIGUSR1);
    assert_eq!(flags, SignalFlags { shutdown: false, reload: false });
    sig_handler(&mut flags, libc::SIGHUP);
    sig_handler(&mut flags, libc::SIGHUP);
    assert_eq!(flags, SignalFlags { shutdown: false, reload: true });
    assert!(check_and_clear_reload(&mut flags));
    assert!(!check_and_clear_reload(&mut flags));
    for sig in [libc::SIGTERM, libc::SIGINT] {
        let mut flags = SignalFlags::default();
        sig_handler(&mut flags, sig);
        assert_eq!(flags, SignalFlags { shutdown: true, reload: false });
        assert!(is_shutdown_requested(&flags));
        check_and_clear_reload(&mut flags);
        assert!(is_shutdown_requested(&flags));
    }
}

#[test]
fn a_synchronization_replaces_the_sets() {
    let config = DaemonConfig::default();
    let plan = sync_whitelist(&config, &WhitelistFile::Content("10.1.2.3/8\nbad\n".to_string()));
    assert_eq!(plan.log.len(), 2);
    let batch = plan.batch.unwrap();
    assert_eq!(batch.entries.v4, vec!["10.0.0.0/8"]);
    assert_eq!(
        batch.script,
        "flush set inet filter lan_whitelist_v4\nadd element inet filter lan_whitelist_v4 { 10.0.0.0/8 }\nflush set inet filter lan_whitelist_v6\n"
    );
    let good = NftRun::Finished { success: true, stderr: String::new() };
    assert_eq!(
        conclude_sync(&batch.entries, &good),
        vec![out("[Gateway] Whitelist synced: [IPv4: 10.0.0.0/8] [IPv6: none]")]
    );
    let bad = NftRun::Finished { success: false, stderr: "no\n".to_string() };
    assert_eq!(
        conclude_sync(&batch.entries, &bad),
        vec![
            err("[Gateway] Error applying nftables batch: no"),
            err("[Gateway] Failed to update nftables sets: no"),
        ]
    );
    assert_eq!(
        conclude_sync(&batch.entries, &NftRun::SpawnFailed("gone".to_string())),
        vec![err("[Gateway] Failed to update nftables sets: Failed to spawn 'nft': gone")]
    );
}

#[test]
fn without_a_readable_whitelist_the_sets_stay() {
    let config = DaemonConfig::default();
    let plan = sync_whitelist(&config, &WhitelistFile::Missing);
    assert!(plan.batch.is_none());
    assert_eq!(
        plan.log,
        vec![out("[Gateway] Whitelist file not found: /etc/nftables/whitelist.txt")]
    );
    let plan = sync_whitelist(&config, &WhitelistFile::Unreadable("denied".to_string()));
    assert!(plan.batch.is_none());
    assert_eq!(
        plan.log,
        vec![err("[Gateway] Failed to read whitelist file /etc/nftables/whitelist.txt: denied")]
    );
}

#[test]
fn events_that_concern_the_whitelist() {
    let target = Some("w");
    let scan = read_and_check_events(false, &events(&[Some("x"), Some("w")]), target);
    assert!(scan.matched && scan.more);
    assert!(!read_and_check_events(false, &events(&[Some("x"), Some("W")]), target).matched);
    assert!(read_and_check_events(false, &events(&[None]), target).matched);
    assert!(read_and_check_events(false, &events(&[Some("x")]), None).matched);
    assert!(read_and_check_events(true, &events(&[Some("x")]), target).matched);
    let scan = read_and_check_events(true, &events(&[]), target);
    assert!(scan.matched && !scan.more);
    let scan = read_and_check_events(false, &ReadOutcome::WouldBlock, target);
    assert!(!scan.matched && !scan.more);
    assert!(read_and_check_events(false, &ReadOutcome::Interrupted, target).more);
    let scan = read_and_check_events(false, &ReadOutcome::Failed("bad".to_string()), target);
    assert!(!scan.matched && !scan.more);
    assert_eq!(scan.log, vec![err("[Gateway] Inotify read error: bad")]);
}

#[test]
fn draining_ends_without_events() {
    assert!(drain_inotify_events(&events(&[None])));
    assert!(!drain_inotify_events(&events(&[])));
    assert!(!drain_inotify_events(&ReadOutcome::WouldBlock));
    assert!(!drain_inotify_events(&ReadOutcome::Interrupted));
    assert!(!drain_inotify_events(&ReadOutcome::Failed("bad".to_string())));
}

#[test]
fn the_watched_events_are_those_of_inotify() {
    let mask = inotify::WatchMask::CLOSE_WRITE
        | inotify::WatchMask::MOVED_TO
        | inotify::WatchMask::CREATE
        | inotify::WatchMask::MODIFY
        | inotify::WatchMask::DELETE;
    assert_eq!(watched_events(), mask.bits());
    assert_eq!(watched_events(), 0x38a);
}

#[test]
fn the_setup() {
    assert_eq!(next(Step::FindDirectory, Answer::Holds(true)), Step::FindFile);
    assert_eq!(next(Step::FindDirectory, Answer::Holds(false)), Step::MakeDirectory);
    assert_eq!(next(Step::MakeDirectory, Answer::Outcome(Ok(()))), Step::FindFile);
    assert_eq!(next(Step::FindFile, Answer::Holds(false)), Step::MakeFile);
    assert_eq!(next(Step::FindFile, Answer::Holds(true)), Step::FirstSync);
    assert_eq!(next(Step::MakeFile, Answer::Done), Step::FirstSync);
    assert_eq!(next(Step::FirstSync, Answer::Done), Step::Open);
    assert_eq!(next(Step::Open, Answer::Outcome(Ok(()))), Step::WatchDirectory);
    assert_eq!(next(Step::WatchDirectory, Answer::Done), Step::FindFileToWatch);
    assert_eq!(next(Step::FindFileToWatch, Answer::Holds(true)), Step::WatchFile);
    assert_eq!(next(Step::FindFileToWatch, Answer::Holds(false)), Step::CheckShutdown);
    assert_eq!(next(Step::WatchFile, Answer::Done), Step::CheckShutdown);
    for step in [Step::MakeDirectory, Step::Open] {
        let config = DaemonConfig::default();
        let moved = advance(&config, None, step, &Answer::Outcome(Err("denied".to_string())));
        assert_eq!(moved.next, Step::Failed);
        assert_eq!(moved.log, vec![err("[Gateway] Watcher error: denied")]);
    }
}

#[test]
fn signals_are_looked_at_before_each_wait() {
    let config = DaemonConfig::default();
    assert_eq!(next(Step::CheckShutdown, Answer::Holds(false)), Step::CheckReload);
    assert_eq!(next(Step::CheckReload, Answer::Holds(false)), Step::Poll { timeout_ms: 500 });
    assert_eq!(next(Step::ReloadSync, Answer::Done), Step::Poll { timeout_ms: 500 });
    let moved = advance(&config, None, Step::CheckShutdown, &Answer::Holds(true));
    assert_eq!(moved.next, Step::Finished);
    assert_eq!(moved.log, vec![out("[Gateway] Exiting whitelist watcher gracefully...")]);
    let moved = advance(&config, None, Step::CheckReload, &Answer::Holds(true));
    assert_eq!(moved.next, Step::ReloadSync);
    assert_eq!(moved.log, vec![out("[Gateway] Reload signal received, updating whitelist...")]);
    assert_eq!(next(Step::Finished, Answer::Done), Step::Finished);
}

#[test]
fn what_follows_a_wait() {
    let poll = Step::Poll { timeout_ms: 500 };
    assert_eq!(next(poll, polled(0, 0, None)), Step::CheckShutdown);
    assert_eq!(next(poll, polled(0, libc::POLLIN, None)), Step::CheckShutdown);
    assert_eq!(next(poll, polled(1, libc::POLLERR, None)), Step::CheckShutdown);
    assert_eq!(next(poll, polled(1, libc::POLLIN | libc::POLLHUP, None)), Step::Read { matched: false });
    assert_eq!(next(poll, polled(-1, 0, Some(libc::EINTR))), Step::CheckShutdown);
    assert_eq!(next(poll, polled(-1, 0, Some(libc::EINVAL))), Step::Pause { ms: 100 });
    assert_eq!(next(poll, polled(-1, 0, None)), Step::Pause { ms: 100 });
    assert_eq!(next(Step::Pause { ms: 100 }, Answer::Done), Step::CheckShutdown);
    let moved = advance(&DaemonConfig::default(), None, poll, &polled(-1, 0, Some(libc::EBADF)));
    assert_eq!(moved.log, vec![err("[Gateway] Poll error: broken")]);
    let moved = advance(&DaemonConfig::default(), None, poll, &polled(-1, 0, Some(libc::EINTR)));
    assert_eq!(moved.log, vec![]);
}

#[test]
fn a_change_is_debounced_and_synchronized() {
    let read = Step::Read { matched: false };
    let seen = next(read, Answer::Notified(events(&[Some("whitelist.txt")])));
    assert_eq!(seen, Step::Read { matched: true });
    let seen = next(seen, Answer::Notified(events(&[Some("other")])));
    assert_eq!(seen, Step::Read { matched: true });
    let nap = next(seen, Answer::Notified(ReadOutcome::WouldBlock));
    assert_eq!(nap, Step::Debounce { ms: 150 });
    assert_eq!(next(nap, Answer::Done), Step::Drain);
    assert_eq!(next(Step::Drain, Answer::Notified(events(&[None]))), Step::Drain);
    assert_eq!(next(Step::Drain, Answer::Notified(ReadOutcome::WouldBlock)), Step::FindFileToRewatch);
    assert_eq!(next(Step::FindFileToRewatch, Answer::Holds(true)), Step::RewatchFile);
    assert_eq!(next(Step::FindFileToRewatch, Answer::Holds(false)), Step::ChangeSync);
    assert_eq!(next(Step::RewatchFile, Answer::Done), Step::ChangeSync);
    assert_eq!(next(Step::ChangeSync, Answer::Done), Step::CheckShutdown);
    assert_eq!(next(read, Answer::Notified(ReadOutcome::WouldBlock)), Step::CheckShutdown);
}

#[test]
fn an_answer_of_another_kind_leaves_the_step() {
    assert_eq!(next(Step::Drain, Answer::Done), Step::Drain);
    assert_eq!(next(Step::CheckShutdown, Answer::Outcome(Ok(()))), Step::CheckShutdown);
}

#[test]
fn the_search_for_rules() {
    let mut config = DaemonConfig::default();
    assert_eq!(rules_candidates(&config, None).len(), 0);
    assert_eq!(rules_candidates(&config, Some("e")), vec!["e"]);
    config.rules_path = Some("c".to_string());
    assert_eq!(rules_candidates(&config, Some("e")), vec!["c", "e"]);
    assert_eq!(begin_search(0), SearchStep::Exhausted);
    assert_eq!(begin_search(2), SearchStep::Read(0));
    assert_eq!(after_read(0, 2, Some("type filter hook output priority 0")), SearchStep::Load(0));
    assert_eq!(after_read(0, 2, Some("hook  output")), SearchStep::Read(1));
    assert_eq!(after_read(0, 2, None), SearchStep::Read(1));
    assert_eq!(after_read(1, 2, None), SearchStep::Exhausted);
    assert_eq!(after_load(0, 2, true), SearchStep::Loaded(0));
    assert_eq!(after_load(0, 2, false), SearchStep::Read(1));
    assert_eq!(after_load(1, 2, false), SearchStep::Exhausted);
    assert_eq!(after_load(usize::MAX, 2, false), SearchStep::Exhausted);
}

#[test]
fn what_is_applied_at_the_start() {
    let config = DaemonConfig::default();
    assert!(matches!(initialize_rules_and_dns(&config, None, None, true), StartupAction::Keep));
    assert!(matches!(
        initialize_rules_and_dns(&config, Some("9.9.9.9"), None, true),
        StartupAction::Redirect(script) if script.contains("dnat ip to 9.9.9.9:53")
    ));
    assert!(matches!(
        initialize_rules_and_dns(&config, None, Some("::1"), false),
        StartupAction::Base(script) if script.contains("hook output") && script.contains("set lan_whitelist_v4 {")
    ));
}

#[test]
fn a_whole_run() {
    let answers = vec![
        (Step::FindDirectory, Answer::Holds(true)),
        (Step::FindFile, Answer::Holds(true)),
        (Step::FirstSync, Answer::Done),
        (Step::Open, Answer::Outcome(Ok(()))),
        (Step::WatchDirectory, Answer::Done),
        (Step::FindFileToWatch, Answer::Holds(true)),
        (Step::WatchFile, Answer::Done),
        (Step::CheckShutdown, Answer::Holds(false)),
        (Step::CheckReload, Answer::Holds(false)),
        (Step::Poll { timeout_ms: 500 }, polled(1, libc::POLLIN, None)),
        (Step::Read { matched: false }, Answer::Notified(events(&[Some("whitelist.txt")]))),
        (Step::Read { matched: true }, Answer::Notified(ReadOutcome::WouldBlock)),
        (Step::Debounce { ms: 20 }, Answer::Done),
        (Step::Drain, Answer::Notified(ReadOutcome::WouldBlock)),
        (Step::FindFileToRewatch, Answer::Holds(true)),
        (Step::RewatchFile, Answer::Done),
        (Step::ChangeSync, Answer::Done),
        (Step::CheckShutdown, Answer::Holds(false)),
        (Step::CheckReload, Answer::Holds(true)),
        (Step::ReloadSync, Answer::Done),
        (Step::Poll { timeout_ms: 500 }, polled(0, 0, None)),
        (Step::CheckShutdown, Answer::Holds(true)),
    ];
    let mut config = DaemonConfig::default();
    config.debounce_ms = 20;
    let mut step = Step::FindDirectory;
    for (expected, answer) in &answers {
        assert_eq!(step, *expected);
        step = advance(&config, Some("whitelist.txt"), step, answer).next;
    }
    assert_eq!(step, Step::Finished);
}

#[test]
fn the_place_of_the_whitelist() {
    for (path, directory, name) in [
        ("/etc/nftables/whitelist.txt", "/etc/nftables", Some("whitelist.txt")),
        ("whitelist.txt", ".", Some("whitelist.txt")),
        ("./whitelist.txt", ".", Some("whitelist.txt")),
        ("../w", "..", Some("w")),
        ("/w", "/", Some("w")),
        ("//w", "/", Some("w")),
        ("a/w", "a", Some("w")),
        ("a//./w/./", "a", Some("w")),
        ("a/.w", "a", Some(".w")),
        ("a/w.", "a", Some("w.")),
        ("a/...", "a", Some("...")),
        ("a/..", "a", None),
        ("..", ".", None),
        (".", ".", None),
        ("./.", ".", None),
        ("/", ".", None),
        ("/.", ".", None),
        ("", ".", None),
    ] {
        let place = watch_place(path);
        assert_eq!(place.directory, directory);
        assert_eq!(place.name.as_deref(), name);
    }
}

#[test]
fn the_place_agrees_with_the_path() {
    for path in ["/etc/w", "a/b/w", "a//b//w", "/w", "./w", "a/./w", "a/w/", "a/w/.", "a/..", "/a/../w", "//w", "/./w"] {
        let place = watch_place(path);
        let whole = std::path::Path::new(path);
        assert_eq!(Some(place.directory.as_str()), whole.parent().unwrap().to_str());
        assert_eq!(place.name.as_deref(), whole.file_name().map(|n| n.to_str().unwrap()));
    }
}
