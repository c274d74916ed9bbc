//! The lifecycle supervisor: start, stop and status for one managed
//! service, evaluated fresh on every invocation.
//!
//! Each operation re-verifies the persisted records against the live
//! process table before acting, purging stale records as it goes. The
//! contracts state each operation as a transition relation over an
//! abstract view of the world: the two records plus the process table.

use vstd::prelude::*;

use crate::driver::{matching_set, proc_matches, purge_matching, some_match, ProcessDriver};
use crate::error::AppError;
use crate::services::ManagedService;
use crate::store::StateStore;

verus! {

#[derive(Debug, Clone, Copy, PartialEq, Eq, Structural)]
pub enum StartOutcome {
    Started { pid: i32 },
    AlreadyRunning { pid: i32 },
}

#[derive(Debug, Clone, Copy, PartialEq, Eq, Structural)]
pub enum StopOutcome {
    Stopped { pid: i32, forced: bool },
    TerminatedByName { count: usize, forced: bool },
    NotRunning,
}

#[derive(Debug, Clone, Copy, PartialEq, Eq, Structural)]
pub enum StatusOutcome {
    Running { pid: i32 },
    NotRunning,
}

/// Everything an operation on one service observes and changes: its two
/// persisted records and the live process table.
pub struct LifecycleView {
    pub pid_rec: Option<i32>,
    pub cfg_rec: Option<(Seq<char>, u16)>,
    pub procs: Map<int, Seq<char>>,
}

/// The view of a store and driver pair for one service.
pub open spec fn view_of<S: StateStore, D: ProcessDriver>(
    store: &S,
    driver: &D,
    service: &ManagedService,
) -> LifecycleView {
    (LifecycleView {
        pid_rec: store.pid_record(service.pid_filename@),
        cfg_rec: store.cfg_record(service.config_filename@),
        procs: driver.procs(),
    })
}

/// The PID record is absent, or names a process that is gone or no
/// longer matches the signature.
pub open spec fn stale_record(v: LifecycleView, sig: Seq<char>) -> bool {
    match v.pid_rec {
        Some(p) => !proc_matches(v.procs, p as int, sig),
        None => true,
    }
}

/// How one `start_service` call relates its pre- and post-view.
pub open spec fn start_transition(
    pre: LifecycleView,
    post: LifecycleView,
    sig: Seq<char>,
    host: Seq<char>,
    port: u16,
    r: StartOutcome,
) -> bool {
    match r {
        StartOutcome::AlreadyRunning { pid } => {
            &&& pre.pid_rec == Some(pid)
            &&& proc_matches(pre.procs, pid as int, sig)
            &&& post == pre
        },
        StartOutcome::Started { pid } => {
            &&& stale_record(pre, sig)
            &&& !pre.procs.contains_key(pid as int)
            &&& post.procs == pre.procs.insert(pid as int, sig)
            &&& post.pid_rec == Some(pid)
            &&& post.cfg_rec == Some((host, port))
        },
    }
}

/// How one `stop_service` call relates its pre- and post-view. The
/// runtime-config record is purged exactly when a PID record was
/// present, mirroring that the records are written and removed as a
/// pair.
pub open spec fn stop_transition(
    pre: LifecycleView,
    post: LifecycleView,
    sig: Seq<char>,
    force: bool,
    r: StopOutcome,
) -> bool {
    &&& post.pid_rec is None
    &&& post.cfg_rec == (match pre.pid_rec {
        Some(_) => None,
        None => pre.cfg_rec,
    })
    &&& match r {
        StopOutcome::Stopped { pid, forced } => {
            &&& forced == force
            &&& pre.pid_rec == Some(pid)
            &&& proc_matches(pre.procs, pid as int, sig)
            &&& post.procs == pre.procs.remove(pid as int)
        },
        StopOutcome::TerminatedByName { count, forced } => {
            &&& forced == force
            &&& count > 0
            &&& stale_record(pre, sig)
            &&& some_match(pre.procs, sig)
            &&& post.procs == purge_matching(pre.procs, sig)
            &&& (pre.procs.dom().finite() ==> count == matching_set(pre.procs, sig).len())
        },
        StopOutcome::NotRunning => {
            &&& stale_record(pre, sig)
            &&& !some_match(pre.procs, sig)
            &&& post.procs == purge_matching(pre.procs, sig)
        },
    }
}

/// How one `status_service` call relates its pre- and post-view. When
/// the recorded PID is live and matching it is preferred; otherwise a
/// discovered matching PID is adopted into the record.
pub open spec fn status_transition(
    pre: LifecycleView,
    post: LifecycleView,
    sig: Seq<char>,
    r: StatusOutcome,
) -> bool {
    &&& post.procs == pre.procs
    &&& post.cfg_rec == pre.cfg_rec
    &&& match r {
        StatusOutcome::Running { pid } => {
            &&& proc_matches(pre.procs, pid as int, sig)
            &&& post.pid_rec == Some(pid)
            &&& (match pre.pid_rec {
                Some(p) => proc_matches(pre.procs, p as int, sig) ==> pid == p,
                None => true,
            })
        },
        StatusOutcome::NotRunning => {
            &&& !some_match(pre.procs, sig)
            &&& post.pid_rec is None
        },
    }
}

/// Start the service: if the recorded PID is live and matching, report
/// it; otherwise purge any stale record, truncate the log, spawn, and
/// persist the new PID together with the runtime-config record.
pub fn start_service<S: StateStore, D: ProcessDriver>(
    service: &ManagedService,
    state_dir: &str,
    store: &mut S,
    driver: &mut D,
) -> (r: Result<StartOutcome, AppError>)
    requires
        service.wf(),
        old(driver).wf(),
    ensures
        final(driver).wf(),
        old(store).infallible() && old(store).pid_file_wf(service.pid_filename@) && old(
            driver,
        ).infallible() && service.command@.len() > 0 ==> r is Ok && final(store).infallible()
            && final(store).pid_file_wf(service.pid_filename@) && (old(store).cfg_file_wf(
            service.config_filename@,
        ) ==> final(store).cfg_file_wf(service.config_filename@)),
        r matches Ok(out) ==> start_transition(
            view_of(old(store), old(driver), service),
            view_of(final(store), final(driver), service),
            service.sig(),
            service.host@,
            service.port,
            out,
        ),
{
    let rec = match store.read_pid(service) {
        Ok(v) => v,
        Err(e) => return Err(e),
    };
    if let Some(pid) = rec {
        if driver.is_running(service, pid) {
            return Ok(StartOutcome::AlreadyRunning { pid });
        }
        match store.remove_pid(service) {
            Ok(_) => (),
            Err(e) => return Err(e),
        }
    }
    let log_path = service.log_path(state_dir);
    match store.reset_log(service) {
        Ok(_) => (),
        Err(e) => return Err(e),
    }
    let pid = match driver.spawn(service, log_path.as_str()) {
        Ok(p) => p,
        Err(e) => return Err(e),
    };
    match store.write_pid(service, pid) {
        Ok(_) => (),
        Err(e) => return Err(e),
    }
    match store.write_config(service) {
        Ok(_) => (),
        Err(e) => return Err(e),
    }
    Ok(StartOutcome::Started { pid })
}

/// Stop the service: signal a live recorded instance, purge the records,
/// and otherwise fall back to a signature sweep. Nothing running is a
/// normal outcome, not an error.
pub fn stop_service<S: StateStore, D: ProcessDriver>(
    service: &ManagedService,
    force: bool,
    store: &mut S,
    driver: &mut D,
) -> (r: Result<StopOutcome, AppError>)
    requires
        service.wf(),
        old(driver).wf(),
    ensures
        final(driver).wf(),
        old(store).infallible() && old(store).pid_file_wf(service.pid_filename@) && old(
            driver,
        ).infallible() ==> r is Ok && final(store).infallible() && final(store).pid_file_wf(
            service.pid_filename@,
        ) && final(driver).infallible() && (old(store).cfg_file_wf(service.config_filename@)
            ==> final(store).cfg_file_wf(service.config_filename@)),
        r matches Ok(out) ==> stop_transition(
            view_of(old(store), old(driver), service),
            view_of(final(store), final(driver), service),
            service.sig(),
            force,
            out,
        ),
{
    let rec = match store.read_pid(service) {
        Ok(v) => v,
        Err(e) => return Err(e),
    };
    if let Some(pid) = rec {
        if driver.is_running(service, pid) {
            let signaled = match driver.signal(service, pid, force) {
                Ok(d) => d,
                Err(e) => return Err(e),
            };
            if signaled {
                match store.remove_pid(service) {
                    Ok(_) => (),
                    Err(e) => return Err(e),
                }
                match store.remove_config(service) {
                    Ok(_) => (),
                    Err(e) => return Err(e),
                }
                return Ok(StopOutcome::Stopped { pid, forced: force });
            }
            match store.remove_pid(service) {
                Ok(_) => (),
                Err(e) => return Err(e),
            }
            match store.remove_config(service) {
                Ok(_) => (),
                Err(e) => return Err(e),
            }
        } else {
            match store.remove_pid(service) {
                Ok(_) => (),
                Err(e) => return Err(e),
            }
            match store.remove_config(service) {
                Ok(_) => (),
                Err(e) => return Err(e),
            }
        }
    }
    let killed = match driver.kill_by_signature(service, force) {
        Ok(n) => n,
        Err(e) => return Err(e),
    };
    if killed > 0 {
        return Ok(StopOutcome::TerminatedByName { count: killed, forced: force });
    }
    Ok(StopOutcome::NotRunning)
}

/// Report whether the service is running: prefer the recorded PID, fall
/// back to a signature probe, and adopt a discovered PID into the record
/// (self-healing a lost PID file).
pub fn status_service<S: StateStore, D: ProcessDriver>(
    service: &ManagedService,
    store: &mut S,
    driver: &D,
) -> (r: Result<StatusOutcome, AppError>)
    requires
        service.wf(),
        driver.wf(),
    ensures
        old(store).infallible() && old(store).pid_file_wf(service.pid_filename@) ==> r is Ok
            && final(store).infallible() && final(store).pid_file_wf(service.pid_filename@) && (
        old(store).cfg_file_wf(service.config_filename@) ==> final(store).cfg_file_wf(
            service.config_filename@,
        )),
        r matches Ok(out) ==> status_transition(
            view_of(old(store), driver, service),
            view_of(final(store), driver, service),
            service.sig(),
            out,
        ),
{
    let rec = match store.read_pid(service) {
        Ok(v) => v,
        Err(e) => return Err(e),
    };
    if let Some(pid) = rec {
        if driver.is_running(service, pid) {
            return Ok(StatusOutcome::Running { pid });
        }
        match store.remove_pid(service) {
            Ok(_) => (),
            Err(e) => return Err(e),
        }
    }
    match driver.is_running_by_signature(service) {
        Some(pid) => {
            match store.write_pid(service, pid) {
                Ok(_) => (),
                Err(e) => return Err(e),
            }
            Ok(StatusOutcome::Running { pid })
        },
        None => Ok(StatusOutcome::NotRunning),
    }
}

} // verus!
