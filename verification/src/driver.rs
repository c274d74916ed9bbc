//! The process driver: the swappable boundary between the supervisor and
//! the operating system's process table.
//!
//! The trait's contracts describe the driver through a model of the live
//! process table — a map from PID to command-line signature. The crate
//! provides a fully verified in-memory driver against which the
//! supervisor's laws are provable and testable; a production driver
//! implements the same trait over the real process table and is trusted
//! to this interface.

use vstd::prelude::*;
use vstd::seq_lib::*;
use vstd::set_lib::*;
use vstd::string::*;

use crate::error::AppError;
use crate::services::{expected_signature, matches_signature, ManagedService};
use crate::text::seq_contains;

verus! {

/// A live process `pid` whose command line counts as a match for the
/// signature `sig`.
pub open spec fn proc_matches(procs: Map<int, Seq<char>>, pid: int, sig: Seq<char>) -> bool {
    procs.contains_key(pid) && seq_contains(procs[pid], sig)
}

/// Some live process matches the signature.
pub open spec fn some_match(procs: Map<int, Seq<char>>, sig: Seq<char>) -> bool {
    exists|pid: int| #[trigger] proc_matches(procs, pid, sig)
}

/// The process table after every process matching `sig` has been killed.
pub open spec fn purge_matching(procs: Map<int, Seq<char>>, sig: Seq<char>) -> Map<
    int,
    Seq<char>,
> {
    Map::new(
        |pid: int| procs.contains_key(pid) && !seq_contains(procs[pid], sig),
        |pid: int| procs[pid],
    )
}

/// The set of live PIDs matching `sig`.
pub open spec fn matching_set(procs: Map<int, Seq<char>>, sig: Seq<char>) -> Set<int> {
    procs.dom().filter(|pid: int| seq_contains(procs[pid], sig))
}

/// Abstraction over OS process operations, modelled by a map from PID to
/// command-line signature. Implementations other than the in-memory one
/// are trusted to this interface; the supervisor is verified against it.
pub trait ProcessDriver: Sized {
    /// The live process table as this driver sees it. Implementations
    /// outside the verifier keep the default, fully unconstrained model.
    open spec fn procs(&self) -> Map<int, Seq<char>> {
        Map::empty()
    }

    /// Well-formedness of the driver's own state; every operation
    /// preserves it.
    open spec fn wf(&self) -> bool {
        true
    }

    /// Whether operations on this driver can run out of resources. The
    /// in-memory driver is infallible until its PID space is exhausted.
    open spec fn infallible(&self) -> bool {
        false
    }

    /// Launch the service's command, sending its output to `log_path`.
    /// Fails when the command is empty; on success the returned PID is a
    /// fresh process whose command line is the service's signature.
    fn spawn(&mut self, service: &ManagedService, log_path: &str) -> (r: Result<i32, AppError>)
        requires
            old(self).wf(),
        ensures
            final(self).wf(),
            service.command@.len() == 0 ==> r is Err,
            old(self).infallible() && service.command@.len() > 0 ==> r is Ok,
            match r {
                Ok(pid) => !old(self).procs().contains_key(pid as int) && final(self).procs()
                    == old(self).procs().insert(pid as int, service.sig()),
                Err(_) => final(self).procs() == old(self).procs(),
            },
    ;

    /// Whether a live process with this PID exists and its command line
    /// matches the service's signature (guards against PID reuse).
    fn is_running(&self, service: &ManagedService, pid: i32) -> (r: bool)
        requires
            self.wf(),
        ensures
            r == proc_matches(self.procs(), pid as int, service.sig()),
    ;

    /// Scan for any live process matching the signature, independent of
    /// any recorded PID.
    fn is_running_by_signature(&self, service: &ManagedService) -> (r: Option<i32>)
        requires
            self.wf(),
        ensures
            match r {
                Some(pid) => proc_matches(self.procs(), pid as int, service.sig()),
                None => !some_match(self.procs(), service.sig()),
            },
    ;

    /// Signal the given PID, gracefully or forcibly, but only if its live
    /// signature still matches; report whether the signal was delivered.
    fn signal(&mut self, service: &ManagedService, pid: i32, force: bool) -> (r: Result<
        bool,
        AppError,
    >)
        requires
            old(self).wf(),
        ensures
            final(self).wf(),
            old(self).infallible() ==> r is Ok && final(self).infallible(),
            match r {
                Ok(delivered) => delivered == proc_matches(
                    old(self).procs(),
                    pid as int,
                    service.sig(),
                ) && final(self).procs() == (if delivered {
                    old(self).procs().remove(pid as int)
                } else {
                    old(self).procs()
                }),
                Err(_) => final(self).procs() == old(self).procs(),
            },
    ;

    /// Signal every live process matching the signature and report how
    /// many were signalled.
    fn kill_by_signature(&mut self, service: &ManagedService, force: bool) -> (r: Result<
        usize,
        AppError,
    >)
        requires
            old(self).wf(),
        ensures
            final(self).wf(),
            old(self).infallible() ==> r is Ok && final(self).infallible(),
            match r {
                Ok(n) => {
                    &&& final(self).procs() == purge_matching(old(self).procs(), service.sig())
                    &&& (n == 0 <==> !some_match(old(self).procs(), service.sig()))
                    &&& (old(self).procs().dom().finite() ==> n == matching_set(
                        old(self).procs(),
                        service.sig(),
                    ).len())
                },
                Err(_) => final(self).procs() == old(self).procs(),
            },
    ;
}

/// One simulated process.
#[derive(Debug, Clone)]
pub struct ModelProcess {
    pub pid: i32,
    pub cmdline: String,
}

pub open spec fn procs_map(s: Seq<ModelProcess>) -> Map<int, Seq<char>>
    decreases s.len(),
{
    if s.len() == 0 {
        Map::empty()
    } else {
        procs_map(s.drop_last()).insert(s.last().pid as int, s.last().cmdline@)
    }
}

pub open spec fn unique_pids(s: Seq<ModelProcess>) -> bool {
    forall|i: int, j: int|
        0 <= i < j < s.len() ==> #[trigger] s[i].pid != #[trigger] s[j].pid
}

proof fn lemma_procs_map_dom(s: Seq<ModelProcess>, p: int)
    ensures
        procs_map(s).contains_key(p) <==> exists|i: int| 0 <= i < s.len() && s[i].pid == p,
        procs_map(s).dom().finite(),
    decreases s.len(),
{
    if s.len() > 0 {
        lemma_procs_map_dom(s.drop_last(), p);
        if exists|i: int| 0 <= i < s.len() - 1 && s.drop_last()[i].pid == p {
            let i = choose|i: int| 0 <= i < s.len() - 1 && s.drop_last()[i].pid == p;
            assert(s[i].pid == p);
        }
        if procs_map(s).contains_key(p) {
            if s.last().pid == p {
                assert(s[s.len() - 1].pid == p);
            }
        }
        if exists|i: int| 0 <= i < s.len() && s[i].pid == p {
            let i = choose|i: int| 0 <= i < s.len() && s[i].pid == p;
            if i < s.len() - 1 {
                assert(s.drop_last()[i].pid == p);
            }
        }
    }
}

proof fn lemma_procs_map_at(s: Seq<ModelProcess>, i: int)
    requires
        unique_pids(s),
        0 <= i < s.len(),
    ensures
        procs_map(s).contains_key(s[i].pid as int),
        procs_map(s)[s[i].pid as int] == s[i].cmdline@,
    decreases s.len(),
{
    if i == s.len() - 1 {
    } else {
        assert(unique_pids(s.drop_last()));
        assert(s.drop_last()[i] == s[i]);
        lemma_procs_map_at(s.drop_last(), i);
        assert(s[i].pid != s[s.len() - 1].pid);
    }
}

proof fn lemma_procs_map_remove(s: Seq<ModelProcess>, i: int)
    requires
        unique_pids(s),
        0 <= i < s.len(),
    ensures
        procs_map(s.remove(i)) == procs_map(s).remove(s[i].pid as int),
    decreases s.len(),
{
    let p = s[i].pid as int;
    if i == s.len() - 1 {
        assert(s.remove(i) =~= s.drop_last());
        lemma_procs_map_dom(s.drop_last(), p);
        assert(forall|j: int| 0 <= j < s.len() - 1 ==> s.drop_last()[j].pid != #[trigger] s[i].pid);
        assert(!procs_map(s.drop_last()).contains_key(p));
        assert(procs_map(s).remove(p) =~= procs_map(s.drop_last()));
    } else {
        let t = s.remove(i);
        assert(t.len() == s.len() - 1);
        assert(t.last() == s.last());
        assert(t.drop_last() =~= s.drop_last().remove(i));
        assert(unique_pids(s.drop_last()));
        lemma_procs_map_remove(s.drop_last(), i);
        assert(s.drop_last()[i] == s[i]);
        assert(s.last().pid != s[i].pid);
        assert(procs_map(t) == procs_map(s.drop_last()).remove(p).insert(
            s.last().pid as int,
            s.last().cmdline@,
        ));
        assert(procs_map(s.drop_last()).remove(p).insert(s.last().pid as int, s.last().cmdline@)
            =~= procs_map(s.drop_last()).insert(s.last().pid as int, s.last().cmdline@).remove(p));
    }
}

/// Keep only the processes that do not match `sig`.
pub open spec fn keep_nonmatching(s: Seq<ModelProcess>, sig: Seq<char>) -> Seq<ModelProcess>
    decreases s.len(),
{
    if s.len() == 0 {
        s
    } else {
        let rest = keep_nonmatching(s.drop_last(), sig);
        if seq_contains(s.last().cmdline@, sig) {
            rest
        } else {
            rest.push(s.last())
        }
    }
}

proof fn lemma_purge(s: Seq<ModelProcess>, sig: Seq<char>)
    requires
        unique_pids(s),
    ensures
        unique_pids(keep_nonmatching(s, sig)),
        keep_nonmatching(s, sig).len() <= s.len(),
        forall|j: int|
            0 <= j < keep_nonmatching(s, sig).len() ==> exists|k: int|
                0 <= k < s.len() && s[k] == #[trigger] keep_nonmatching(s, sig)[j],
        procs_map(keep_nonmatching(s, sig)) == purge_matching(procs_map(s), sig),
        matching_set(procs_map(s), sig).finite(),
        matching_set(procs_map(s), sig).len() == s.len() - keep_nonmatching(s, sig).len(),
    decreases s.len(),
{
    if s.len() == 0 {
        assert(procs_map(keep_nonmatching(s, sig)) =~= purge_matching(procs_map(s), sig));
        assert(matching_set(procs_map(s), sig) =~= Set::<int>::empty());
    } else {
        let t = s.drop_last();
        let x = s.last();
        assert(unique_pids(t));
        lemma_purge(t, sig);
        lemma_procs_map_dom(t, x.pid as int);
        assert(forall|j: int| 0 <= j < t.len() ==> #[trigger] t[j].pid != x.pid);
        assert(!procs_map(t).contains_key(x.pid as int));
        let m = procs_map(t);
        let m2 = procs_map(s);
        let kt = keep_nonmatching(t, sig);
        let ks = keep_nonmatching(s, sig);
        assert forall|j: int|
            0 <= j < ks.len() implies exists|k: int|
                0 <= k < s.len() && s[k] == #[trigger] ks[j] by {
            if seq_contains(x.cmdline@, sig) || j < ks.len() - 1 {
                assert(ks[j] == kt[j]);
                let k = choose|k: int| 0 <= k < t.len() && t[k] == kt[j];
                assert(s[k] == ks[j]);
            } else {
                assert(ks[j] == x);
                assert(s[s.len() - 1] == ks[j]);
            }
        }
        assert forall|a: int, b: int|
            0 <= a < b < ks.len() implies #[trigger] ks[a].pid != #[trigger] ks[b].pid by {
            if !seq_contains(x.cmdline@, sig) && b == ks.len() - 1 {
                assert(ks[a] == kt[a]);
                let k = choose|k: int| 0 <= k < t.len() && t[k] == kt[a];
                assert(t[k].pid != x.pid);
                assert(ks[b] == x);
            } else {
                assert(ks[a] == kt[a]);
                assert(ks[b] == kt[b]);
            }
        }
        if seq_contains(x.cmdline@, sig) {
            assert(ks == kt);
            assert(procs_map(ks) =~= purge_matching(m2, sig));
            assert(matching_set(m2, sig) =~= matching_set(m, sig).insert(x.pid as int));
            assert(!matching_set(m, sig).contains(x.pid as int));
        } else {
            assert(ks.drop_last() =~= kt);
            assert(ks.last() == x);
            assert(procs_map(ks) == procs_map(kt).insert(x.pid as int, x.cmdline@));
            assert(procs_map(ks) =~= purge_matching(m2, sig));
            assert(matching_set(m2, sig) =~= matching_set(m, sig));
        }
    }
}

/// A deterministic in-memory process driver: the verified stand-in used
/// by the supervisor's laws and tests. PIDs are handed out sequentially
/// from a configurable base; signalling a matching process removes it at
/// once.
#[derive(Debug)]
pub struct ModelDriver {
    procs: Vec<ModelProcess>,
    next_pid: i32,
    signals: Vec<(i32, bool)>,
}

impl ModelDriver {
    /// PIDs of every simulated signal delivered so far, with its force
    /// flag, in order.
    pub closed spec fn signal_log(&self) -> Seq<(i32, bool)> {
        self.signals@
    }

    pub fn new(first_pid: i32) -> (r: Self)
        requires
            1 <= first_pid < i32::MAX,
        ensures
            r.wf(),
            r.procs() == Map::<int, Seq<char>>::empty(),
            r.infallible(),
            r.signal_log() == Seq::<(i32, bool)>::empty(),
    {
        ModelDriver { procs: Vec::new(), next_pid: first_pid, signals: Vec::new() }
    }

    /// Introduce a process that this driver did not spawn, as an
    /// externally started instance would appear in the process table.
    pub fn add_process(&mut self, pid: i32, cmdline: &str)
        requires
            old(self).wf(),
            1 <= pid < i32::MAX,
            !old(self).procs().contains_key(pid as int),
            old(self).infallible(),
        ensures
            final(self).wf(),
            final(self).procs() == old(self).procs().insert(pid as int, cmdline@),
    {
        proof {
            lemma_procs_map_dom(self.procs@, pid as int);
        }
        let next = if pid >= self.next_pid {
            pid + 1
        } else {
            self.next_pid
        };
        self.next_pid = next;
        self.procs.push(ModelProcess { pid, cmdline: String::from_str(cmdline) });
        proof {
            assert(forall|i: int|
                0 <= i < self.procs@.len() - 1 ==> self.procs@[i] == old(self).procs@[i]);
            assert(self.procs@.drop_last() =~= old(self).procs@);
            assert forall|a: int, b: int|
                0 <= a < b < self.procs@.len() implies #[trigger] self.procs@[a].pid
                != #[trigger] self.procs@[b].pid by {
                if b == self.procs@.len() - 1 {
                    assert(!(exists|i: int|
                        0 <= i < old(self).procs@.len() && old(self).procs@[i].pid == pid));
                    assert(old(self).procs@[a].pid != pid);
                }
            }
        }
    }

    /// The signals delivered so far, for inspection by tests.
    pub fn signal_events(&self) -> (r: &Vec<(i32, bool)>)
        ensures
            r@ == self.signal_log(),
    {
        &self.signals
    }
}

impl ProcessDriver for ModelDriver {
    closed spec fn procs(&self) -> Map<int, Seq<char>> {
        procs_map(self.procs@)
    }

    closed spec fn wf(&self) -> bool {
        &&& unique_pids(self.procs@)
        &&& self.next_pid >= 1
        &&& forall|i: int|
            0 <= i < self.procs@.len() ==> 1 <= #[trigger] self.procs@[i].pid < self.next_pid
    }

    closed spec fn infallible(&self) -> bool {
        self.next_pid < i32::MAX
    }

    fn spawn(&mut self, service: &ManagedService, log_path: &str) -> (r: Result<i32, AppError>) {
        if service.command.len() == 0 {
            return Err(AppError::process_error(service.name.as_str(), "service command is empty"));
        }
        if self.next_pid == i32::MAX {
            return Err(
                AppError::process_error(service.name.as_str(), "no process identifiers left"),
            );
        }
        let pid = self.next_pid;
        proof {
            lemma_procs_map_dom(self.procs@, pid as int);
        }
        self.next_pid = pid + 1;
        let cmdline = expected_signature(&service.command);
        self.procs.push(ModelProcess { pid, cmdline });
        proof {
            assert(forall|i: int|
                0 <= i < self.procs@.len() - 1 ==> self.procs@[i] == old(self).procs@[i]);
            assert(self.procs@.drop_last() =~= old(self).procs@);
            assert forall|a: int, b: int|
                0 <= a < b < self.procs@.len() implies #[trigger] self.procs@[a].pid
                != #[trigger] self.procs@[b].pid by {
                if b == self.procs@.len() - 1 {
                    assert(old(self).procs@[a].pid < old(self).next_pid);
                }
            }
        }
        Ok(pid)
    }

    fn is_running(&self, service: &ManagedService, pid: i32) -> (r: bool) {
        let expected = expected_signature(&service.command);
        let mut i: usize = 0;
        while i < self.procs.len()
            invariant
                i <= self.procs@.len(),
                unique_pids(self.procs@),
                expected@ == service.sig(),
                forall|j: int| 0 <= j < i ==> #[trigger] self.procs@[j].pid != pid,
            decreases self.procs@.len() - i,
        {
            if self.procs[i].pid == pid {
                let r = matches_signature(expected.as_str(), self.procs[i].cmdline.as_str());
                proof {
                    lemma_procs_map_at(self.procs@, i as int);
                }
                return r;
            }
            i += 1;
        }
        proof {
            lemma_procs_map_dom(self.procs@, pid as int);
        }
        false
    }

    fn is_running_by_signature(&self, service: &ManagedService) -> (r: Option<i32>) {
        let expected = expected_signature(&service.command);
        let mut i: usize = 0;
        while i < self.procs.len()
            invariant
                i <= self.procs@.len(),
                unique_pids(self.procs@),
                expected@ == service.sig(),
                forall|j: int|
                    0 <= j < i ==> !seq_contains(#[trigger] self.procs@[j].cmdline@, service.sig()),
            decreases self.procs@.len() - i,
        {
            if matches_signature(expected.as_str(), self.procs[i].cmdline.as_str()) {
                proof {
                    lemma_procs_map_at(self.procs@, i as int);
                }
                return Some(self.procs[i].pid);
            }
            i += 1;
        }
        proof {
            assert forall|pid: int| !proc_matches(self.procs(), pid, service.sig()) by {
                lemma_procs_map_dom(self.procs@, pid);
                if self.procs().contains_key(pid) {
                    let j = choose|j: int| 0 <= j < self.procs@.len() && self.procs@[j].pid == pid;
                    lemma_procs_map_at(self.procs@, j);
                }
            }
        }
        None
    }

    fn signal(&mut self, service: &ManagedService, pid: i32, force: bool) -> (r: Result<
        bool,
        AppError,
    >) {
        let expected = expected_signature(&service.command);
        let mut i: usize = 0;
        while i < self.procs.len()
            invariant
                i <= self.procs@.len(),
                self == old(self),
                old(self).wf(),
                unique_pids(self.procs@),
                forall|j: int|
                    0 <= j < self.procs@.len() ==> 1 <= #[trigger] self.procs@[j].pid
                        < self.next_pid,
                expected@ == service.sig(),
                forall|j: int| 0 <= j < i ==> #[trigger] self.procs@[j].pid != pid,
            decreases self.procs@.len() - i,
        {
            if self.procs[i].pid == pid {
                if matches_signature(expected.as_str(), self.procs[i].cmdline.as_str()) {
                    proof {
                        lemma_procs_map_at(self.procs@, i as int);
                        lemma_procs_map_remove(self.procs@, i as int);
                        lemma_remove_keeps(self.procs@, i as int, self.next_pid);
                    }
                    self.procs.remove(i);
                    self.signals.push((pid, force));
                    return Ok(true);
                } else {
                    proof {
                        lemma_procs_map_at(self.procs@, i as int);
                    }
                    self.signals.push((pid, force));
                    return Ok(false);
                }
            }
            i += 1;
        }
        proof {
            lemma_procs_map_dom(self.procs@, pid as int);
        }
        self.signals.push((pid, force));
        Ok(false)
    }

    fn kill_by_signature(&mut self, service: &ManagedService, force: bool) -> (r: Result<
        usize,
        AppError,
    >) {
        proof {
            lemma_purge(self.procs@, service.sig());
        }
        let expected = expected_signature(&service.command);
        let ghost orig = self.procs@;
        let mut kept: Vec<ModelProcess> = Vec::new();
        let mut killed: usize = 0;
        let mut i: usize = 0;
        proof {
            assert(orig.subrange(0, 0) =~= Seq::<ModelProcess>::empty());
        }
        while i < self.procs.len()
            invariant
                i <= self.procs@.len(),
                self == old(self),
                orig == self.procs@,
                unique_pids(orig),
                expected@ == service.sig(),
                kept@ == keep_nonmatching(orig.subrange(0, i as int), service.sig()),
                killed == i - kept@.len(),
            decreases self.procs@.len() - i,
        {
            proof {
                assert(orig.subrange(0, i + 1).drop_last() =~= orig.subrange(0, i as int));
                assert(orig.subrange(0, i + 1).last() == orig[i as int]);
                assert(unique_pids(orig.subrange(0, i as int))) by {
                    assert(forall|a: int|
                        0 <= a < i ==> #[trigger] orig.subrange(0, i as int)[a] == orig[a]);
                }
                lemma_purge(orig.subrange(0, i as int), service.sig());
            }
            if matches_signature(expected.as_str(), self.procs[i].cmdline.as_str()) {
                killed += 1;
            } else {
                let p = ModelProcess {
                    pid: self.procs[i].pid,
                    cmdline: self.procs[i].cmdline.clone(),
                };
                proof {
                    assert(p == orig[i as int]);
                }
                kept.push(p);
            }
            i += 1;
        }
        proof {
            assert(orig.subrange(0, orig.len() as int) =~= orig);
            assert(kept@ == keep_nonmatching(orig, service.sig()));
        }
        self.procs = kept;
        proof {
            let sig = service.sig();
            assert(self.procs@ == keep_nonmatching(orig, sig));
            assert forall|j: int|
                0 <= j < self.procs@.len() implies 1 <= #[trigger] self.procs@[j].pid
                < self.next_pid by {
                let k = choose|k: int| 0 <= k < orig.len() && orig[k] == self.procs@[j];
                assert(1 <= orig[k].pid < old(self).next_pid);
            }
            if killed == 0 {
                assert(keep_nonmatching(orig, sig).len() == orig.len());
                assert(matching_set(procs_map(orig), sig).len() == 0);
                assert forall|pid: int| !(#[trigger] proc_matches(procs_map(orig), pid, sig)) by {
                    lemma_procs_map_dom(orig, pid);
                    if procs_map(orig).contains_key(pid) {
                        let j = choose|j: int| 0 <= j < orig.len() && orig[j].pid == pid;
                        lemma_procs_map_at(orig, j);
                        if seq_contains(orig[j].cmdline@, sig) {
                            assert(matching_set(procs_map(orig), sig).contains(pid));
                            matching_set(procs_map(orig), sig).lemma_len0_is_empty();
                            assert(false);
                        }
                    }
                }
            } else {
                let mset = matching_set(procs_map(orig), sig);
                assert(mset.len() != 0);
                assert(exists|p: int| mset.contains(p)) by {
                    if !(exists|p: int| mset.contains(p)) {
                        assert(mset =~= Set::<int>::empty());
                    }
                }
                let p = choose|p: int| mset.contains(p);
                assert(proc_matches(procs_map(orig), p, sig));
            }
        }
        Ok(killed)
    }
}

proof fn lemma_remove_keeps(s: Seq<ModelProcess>, i: int, bound: i32)
    requires
        unique_pids(s),
        0 <= i < s.len(),
        forall|j: int| 0 <= j < s.len() ==> 1 <= #[trigger] s[j].pid < bound,
    ensures
        unique_pids(s.remove(i)),
        forall|j: int|
            0 <= j < s.remove(i).len() ==> 1 <= #[trigger] s.remove(i)[j].pid < bound,
{
    let t = s.remove(i);
    assert(t =~= s.subrange(0, i) + s.subrange(i + 1, s.len() as int));
    assert forall|a: int| 0 <= a < t.len() implies #[trigger] t[a] == (if a < i {
        s[a]
    } else {
        s[a + 1]
    }) by {}
    assert forall|a: int, b: int|
        0 <= a < b < t.len() implies #[trigger] t[a].pid != #[trigger] t[b].pid by {
        let a2 = if a < i { a } else { a + 1 };
        let b2 = if b < i { b } else { b + 1 };
        assert(t[a] == s[a2]);
        assert(t[b] == s[b2]);
        assert(s[a2].pid != s[b2].pid);
    }
    assert forall|j: int| 0 <= j < t.len() implies 1 <= #[trigger] t[j].pid < bound by {
        let j2 = if j < i { j } else { j + 1 };
        assert(t[j] == s[j2]);
    }
}

} // verus!
