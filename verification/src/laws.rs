//! Laws of the lifecycle supervisor, proved over the transition
//! relations that `start_service`, `stop_service` and `status_service`
//! establish in their contracts.

use vstd::prelude::*;

use crate::driver::{proc_matches, purge_matching, some_match};
use crate::supervisor::{
    start_transition, status_transition, stop_transition, LifecycleView, StartOutcome,
    StatusOutcome, StopOutcome,
};
use crate::text::seq_contains;

verus! {

/// At most one live process matches the signature: the supervisor
/// manages a single instance of each runtime.
pub open spec fn at_most_one_match(procs: Map<int, Seq<char>>, sig: Seq<char>) -> bool {
    forall|p: int, q: int|
        #[trigger] proc_matches(procs, p, sig) && #[trigger] proc_matches(procs, q, sig) ==> p
            == q
}

/// The PID that a successful start reports.
pub open spec fn start_pid(r: StartOutcome) -> i32 {
    match r {
        StartOutcome::Started { pid } => pid,
        StartOutcome::AlreadyRunning { pid } => pid,
    }
}

/// Stopping twice in a row: whatever the first stop did, the second
/// reports `NotRunning`, provided at most one live process matched the
/// signature to begin with (the supervisor does not manage concurrent
/// instances of one runtime).
pub proof fn lemma_stop_idempotent(
    w0: LifecycleView,
    w1: LifecycleView,
    w2: LifecycleView,
    sig: Seq<char>,
    f1: bool,
    f2: bool,
    r1: StopOutcome,
    r2: StopOutcome,
)
    requires
        at_most_one_match(w0.procs, sig),
        stop_transition(w0, w1, sig, f1, r1),
        stop_transition(w1, w2, sig, f2, r2),
    ensures
        r2 == StopOutcome::NotRunning,
        w2.procs == w1.procs,
{
    assert forall|q: int| !(#[trigger] proc_matches(w1.procs, q, sig)) by {
        if proc_matches(w1.procs, q, sig) {
            match r1 {
                StopOutcome::Stopped { pid, .. } => {
                    assert(w1.procs == w0.procs.remove(pid as int));
                    assert(q != pid as int);
                    assert(proc_matches(w0.procs, q, sig));
                    assert(proc_matches(w0.procs, pid as int, sig));
                },
                StopOutcome::TerminatedByName { .. } => {
                    assert(w1.procs == purge_matching(w0.procs, sig));
                    assert(!seq_contains(w1.procs[q], sig));
                },
                StopOutcome::NotRunning => {
                    assert(w1.procs == purge_matching(w0.procs, sig));
                    assert(!seq_contains(w1.procs[q], sig));
                },
            }
        }
    }
    match r2 {
        StopOutcome::Stopped { .. } => {
            assert(w1.pid_rec is None);
            assert(false);
        },
        StopOutcome::TerminatedByName { .. } => {
            assert(some_match(w1.procs, sig));
            let q = choose|q: int| proc_matches(w1.procs, q, sig);
            assert(false);
        },
        StopOutcome::NotRunning => {
            assert forall|q: int|
                w1.procs.contains_key(q) implies purge_matching(w1.procs, sig).contains_key(
                q,
            ) by {
                assert(!proc_matches(w1.procs, q, sig));
            }
            assert(w2.procs =~= w1.procs);
        },
    }
}

/// Immediately after a successful start, status reports `Running` with
/// the same PID that start returned.
pub proof fn lemma_start_then_status(
    w0: LifecycleView,
    w1: LifecycleView,
    w2: LifecycleView,
    sig: Seq<char>,
    host: Seq<char>,
    port: u16,
    r1: StartOutcome,
    r2: StatusOutcome,
)
    requires
        start_transition(w0, w1, sig, host, port, r1),
        status_transition(w1, w2, sig, r2),
    ensures
        r2 == (StatusOutcome::Running { pid: start_pid(r1) }),
        w2 == w1,
{
    let pid = start_pid(r1);
    assert(seq_contains(sig, sig)) by {
        assert(sig.subrange(0, 0 + sig.len() as int) =~= sig);
    }
    assert(w1.pid_rec == Some(pid));
    assert(proc_matches(w1.procs, pid as int, sig));
    match r2 {
        StatusOutcome::NotRunning => {
            assert(!some_match(w1.procs, sig));
            assert(false);
        },
        StatusOutcome::Running { pid: q } => {
            assert(q == pid);
        },
    }
}

/// A stale PID record self-heals: when the recorded PID is not live and
/// nothing matches the signature, status reports `NotRunning` and no
/// PID record is left behind.
pub proof fn lemma_status_clears_stale(
    w0: LifecycleView,
    w1: LifecycleView,
    sig: Seq<char>,
    p: i32,
    r: StatusOutcome,
)
    requires
        w0.pid_rec == Some(p),
        !proc_matches(w0.procs, p as int, sig),
        !some_match(w0.procs, sig),
        status_transition(w0, w1, sig, r),
    ensures
        r == StatusOutcome::NotRunning,
        w1.pid_rec is None,
{
}

/// A live matching process is adopted: with no PID record but a live
/// process matching the signature, status reports `Running` and a PID
/// record holding the discovered PID exists afterwards.
pub proof fn lemma_status_adopts(
    w0: LifecycleView,
    w1: LifecycleView,
    sig: Seq<char>,
    r: StatusOutcome,
)
    requires
        w0.pid_rec is None,
        some_match(w0.procs, sig),
        status_transition(w0, w1, sig, r),
    ensures
        r matches StatusOutcome::Running { pid } && w1.pid_rec == Some(pid) && proc_matches(
            w0.procs,
            pid as int,
            sig,
        ),
{
}

/// Force versus graceful: a stop that acted on a live recorded instance
/// reports the caller's force flag back, and the PID record is removed
/// either way.
pub proof fn lemma_stop_force_flag(
    w0: LifecycleView,
    w1: LifecycleView,
    sig: Seq<char>,
    force: bool,
    r: StopOutcome,
)
    requires
        stop_transition(w0, w1, sig, force, r),
    ensures
        w1.pid_rec is None,
        match r {
            StopOutcome::Stopped { forced, .. } => forced == force,
            StopOutcome::TerminatedByName { forced, .. } => forced == force,
            StopOutcome::NotRunning => true,
        },
{
}

} // verus!
