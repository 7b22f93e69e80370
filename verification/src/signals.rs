//! What the signals that a daemon receives ask for.

use vstd::prelude::*;

verus! {

/// `libc::SIGHUP`: the number of the hangup signal on Linux.
#[verifier::external_body]
fn sighup() -> (r: i32)
    ensures
        r == 1,
{
    libc::SIGHUP
}

/// `libc::SIGINT`: the number of the interrupt signal on Linux.
#[verifier::external_body]
fn sigint() -> (r: i32)
    ensures
        r == 2,
{
    libc::SIGINT
}

/// `libc::SIGTERM`: the number of the termination signal on Linux.
#[verifier::external_body]
fn sigterm() -> (r: i32)
    ensures
        r == 15,
{
    libc::SIGTERM
}

/// What signals have asked for.
#[derive(Debug, Clone, Copy, PartialEq, Eq, Structural)]
pub struct SignalFlags {
    pub shutdown: bool,
    pub reload: bool,
}

impl Default for SignalFlags {
    fn default() -> (r: SignalFlags)
        ensures
            r == (SignalFlags { shutdown: false, reload: false }),
    {
        SignalFlags { shutdown: false, reload: false }
    }
}

/// Whether the signal asks to end: an interrupt or a termination.
pub open spec fn asks_shutdown(sig: i32) -> bool {
    sig == 2 || sig == 15
}

/// Whether the signal asks to read the whitelist again: a hangup.
pub open spec fn asks_reload(sig: i32) -> bool {
    sig == 1
}

/// The flags after a signal.
pub open spec fn after_signal(flags: SignalFlags, sig: i32) -> SignalFlags {
    SignalFlags {
        shutdown: flags.shutdown || asks_shutdown(sig),
        reload: flags.reload || asks_reload(sig),
    }
}

/// The flags after several signals.
pub open spec fn after_signals(flags: SignalFlags, sigs: Seq<i32>) -> SignalFlags
    decreases sigs.len(),
{
    if sigs.len() == 0 {
        flags
    } else {
        after_signal(after_signals(flags, sigs.drop_last()), sigs.last())
    }
}

/// The flags after a request to reload was taken up.
pub open spec fn after_check(flags: SignalFlags) -> SignalFlags {
    SignalFlags { shutdown: flags.shutdown, reload: false }
}

/// Notes what a signal asks for. Other signals change nothing.
pub fn sig_handler(flags: &mut SignalFlags, sig: i32)
    ensures
        *final(flags) == after_signal(*old(flags), sig),
{
    if sig == sigterm() || sig == sigint() {
        flags.shutdown = true;
    } else if sig == sighup() {
        flags.reload = true;
    }
}

/// Whether a signal has asked to end.
pub fn is_shutdown_requested(flags: &SignalFlags) -> (r: bool)
    ensures
        r == flags.shutdown,
{
    flags.shutdown
}

/// Whether a signal has asked to reload since the last check.
pub fn check_and_clear_reload(flags: &mut SignalFlags) -> (r: bool)
    ensures
        r == old(flags).reload,
        *final(flags) == after_check(*old(flags)),
{
    let requested = flags.reload;
    flags.reload = false;
    requested
}

/// Whatever arrives in whatever order: the end is asked for once some signal
/// asks for it, a reload once some signal asks for that, and neither is lost.
pub proof fn signals_accumulate(flags: SignalFlags, sigs: Seq<i32>)
    ensures
        after_signals(flags, sigs).shutdown <==> flags.shutdown || exists|i: int|
            0 <= i < sigs.len() && asks_shutdown(#[trigger] sigs[i]),
        after_signals(flags, sigs).reload <==> flags.reload || exists|i: int|
            0 <= i < sigs.len() && asks_reload(#[trigger] sigs[i]),
    decreases sigs.len(),
{
    if sigs.len() > 0 {
        let front = sigs.drop_last();
        signals_accumulate(flags, front);
        assert forall|i: int| 0 <= i < front.len() implies #[trigger] front[i] == sigs[i] by {}
        assert(sigs.last() == sigs[sigs.len() - 1]);
        if exists|i: int| 0 <= i < front.len() && asks_shutdown(#[trigger] front[i]) {
            let i = choose|i: int| 0 <= i < front.len() && asks_shutdown(#[trigger] front[i]);
            assert(asks_shutdown(sigs[i]));
        }
        if exists|i: int| 0 <= i < front.len() && asks_reload(#[trigger] front[i]) {
            let i = choose|i: int| 0 <= i < front.len() && asks_reload(#[trigger] front[i]);
            assert(asks_reload(sigs[i]));
        }
        if exists|i: int| 0 <= i < sigs.len() && asks_shutdown(#[trigger] sigs[i]) {
            let i = choose|i: int| 0 <= i < sigs.len() && asks_shutdown(#[trigger] sigs[i]);
            assert(i < front.len() ==> asks_shutdown(front[i]));
        }
        if exists|i: int| 0 <= i < sigs.len() && asks_reload(#[trigger] sigs[i]) {
            let i = choose|i: int| 0 <= i < sigs.len() && asks_reload(#[trigger] sigs[i]);
            assert(i < front.len() ==> asks_reload(front[i]));
        }
    }
}

/// Several hangups between two checks give one reload, and a check takes up
/// nothing else: after it only a new hangup asks for a reload, and what asked
/// for the end still does.
pub proof fn a_check_takes_up_the_reload(flags: SignalFlags, sigs: Seq<i32>)
    ensures
        after_signals(after_check(flags), sigs).reload <==> exists|i: int|
            0 <= i < sigs.len() && asks_reload(#[trigger] sigs[i]),
        after_signals(after_check(flags), sigs).shutdown == after_signals(flags, sigs).shutdown,
        after_check(after_check(flags)) == after_check(flags),
{
    signals_accumulate(after_check(flags), sigs);
    signals_accumulate(flags, sigs);
}

} // verus!
