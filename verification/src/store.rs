//! The state store: per-service persistence of the PID record and the
//! runtime-config record.
//!
//! The trait models a directory of named files abstractly: what the PID
//! record and the runtime-config record of each file name read as, and
//! whether each file is well-formed. The crate provides a verified
//! in-memory store; a production store implements the same trait over
//! the filesystem and is trusted to this interface.

use vstd::prelude::*;
use vstd::string::*;

use crate::error::AppError;
use crate::records::{
    format_cfg_record, format_pid_record, opt_pair_view, parse_cfg_record, parse_cfg_spec,
    parse_pid_record, parse_pid_spec,
};
use crate::services::{host_wf, ManagedService};
use crate::text::str_eq;

verus! {

/// Persistence of the two per-service records, keyed by file name.
/// Absence reads as `None`; malformed contents are read errors. Writes
/// are whole-record replacements. An implementation may fail any
/// operation (a filesystem may); the in-memory store never does.
pub trait StateStore: Sized {
    /// What the PID record stored under `file` reads as. Implementations
    /// outside the verifier keep the default, fully unconstrained model.
    open spec fn pid_record(&self, file: Seq<char>) -> Option<i32> {
        None
    }

    /// What the runtime-config record stored under `file` reads as.
    open spec fn cfg_record(&self, file: Seq<char>) -> Option<(Seq<char>, u16)> {
        None
    }

    /// The file is absent or holds a readable PID record.
    open spec fn pid_file_wf(&self, file: Seq<char>) -> bool {
        true
    }

    /// The file is absent or holds a readable runtime-config record.
    open spec fn cfg_file_wf(&self, file: Seq<char>) -> bool {
        true
    }

    /// Whether this store's operations can fail at all.
    open spec fn infallible(&self) -> bool {
        false
    }

    /// Read the PID record; absence is `Ok(None)`, malformed contents an
    /// error.
    fn read_pid(&self, service: &ManagedService) -> (r: Result<Option<i32>, AppError>)
        ensures
            self.infallible() && self.pid_file_wf(service.pid_filename@) ==> r is Ok,
            r matches Ok(p) ==> p == self.pid_record(service.pid_filename@),
    ;

    /// Record the PID, replacing any previous record.
    fn write_pid(&mut self, service: &ManagedService, pid: i32) -> (r: Result<(), AppError>)
        ensures
            old(self).infallible() ==> r is Ok && final(self).infallible(),
            r is Ok ==> final(self).pid_record(service.pid_filename@) == Some(pid)
                && final(self).pid_file_wf(service.pid_filename@) && (forall|g: Seq<char>|
                    g != service.pid_filename@ ==> #[trigger] final(self).pid_record(g) == old(self).pid_record(g))
                && (forall|g: Seq<char>|
                    g != service.pid_filename@ ==> #[trigger] final(self).cfg_record(g) == old(self).cfg_record(g))
                && (forall|g: Seq<char>|
                    g != service.pid_filename@ ==> #[trigger] final(self).pid_file_wf(g) == old(self).pid_file_wf(g))
                && (forall|g: Seq<char>|
                    g != service.pid_filename@ ==> #[trigger] final(self).cfg_file_wf(g) == old(self).cfg_file_wf(g)),
            r is Err ==> *final(self) == *old(self),
    ;

    /// Delete the PID record; absence is success.
    fn remove_pid(&mut self, service: &ManagedService) -> (r: Result<(), AppError>)
        ensures
            old(self).infallible() ==> r is Ok && final(self).infallible(),
            r is Ok ==> final(self).pid_record(service.pid_filename@) is None
                && final(self).pid_file_wf(service.pid_filename@) && (forall|g: Seq<char>|
                    g != service.pid_filename@ ==> #[trigger] final(self).pid_record(g) == old(self).pid_record(g))
                && (forall|g: Seq<char>|
                    g != service.pid_filename@ ==> #[trigger] final(self).cfg_record(g) == old(self).cfg_record(g))
                && (forall|g: Seq<char>|
                    g != service.pid_filename@ ==> #[trigger] final(self).pid_file_wf(g) == old(self).pid_file_wf(g))
                && (forall|g: Seq<char>|
                    g != service.pid_filename@ ==> #[trigger] final(self).cfg_file_wf(g) == old(self).cfg_file_wf(g)),
            r is Err ==> *final(self) == *old(self),
    ;

    /// Read the runtime-config record; absence or a missing key is
    /// `Ok(None)`, an unreadable port an error.
    fn read_config(&self, service: &ManagedService) -> (r: Result<Option<(String, u16)>, AppError>)
        ensures
            self.infallible() && self.cfg_file_wf(service.config_filename@) ==> r is Ok,
            r matches Ok(v) ==> opt_pair_view(v) == self.cfg_record(service.config_filename@),
            r matches Ok(Some(hp)) ==> host_wf(hp.0@),
    ;

    /// Record the service's resolved host and port, replacing any
    /// previous record.
    fn write_config(&mut self, service: &ManagedService) -> (r: Result<(), AppError>)
        requires
            host_wf(service.host@),
        ensures
            old(self).infallible() ==> r is Ok && final(self).infallible(),
            r is Ok ==> final(self).cfg_record(service.config_filename@) == Some(
                (service.host@, service.port),
            ) && final(self).cfg_file_wf(service.config_filename@) && (forall|g: Seq<char>|
                    g != service.config_filename@ ==> #[trigger] final(self).pid_record(g) == old(self).pid_record(g))
                && (forall|g: Seq<char>|
                    g != service.config_filename@ ==> #[trigger] final(self).cfg_record(g) == old(self).cfg_record(g))
                && (forall|g: Seq<char>|
                    g != service.config_filename@ ==> #[trigger] final(self).pid_file_wf(g) == old(self).pid_file_wf(g))
                && (forall|g: Seq<char>|
                    g != service.config_filename@ ==> #[trigger] final(self).cfg_file_wf(g) == old(self).cfg_file_wf(g)),
            r is Err ==> *final(self) == *old(self),
    ;

    /// Delete the runtime-config record; absence is success.
    fn remove_config(&mut self, service: &ManagedService) -> (r: Result<(), AppError>)
        ensures
            old(self).infallible() ==> r is Ok && final(self).infallible(),
            r is Ok ==> final(self).cfg_record(service.config_filename@) is None
                && final(self).cfg_file_wf(service.config_filename@) && (forall|g: Seq<char>|
                    g != service.config_filename@ ==> #[trigger] final(self).pid_record(g) == old(self).pid_record(g))
                && (forall|g: Seq<char>|
                    g != service.config_filename@ ==> #[trigger] final(self).cfg_record(g) == old(self).cfg_record(g))
                && (forall|g: Seq<char>|
                    g != service.config_filename@ ==> #[trigger] final(self).pid_file_wf(g) == old(self).pid_file_wf(g))
                && (forall|g: Seq<char>|
                    g != service.config_filename@ ==> #[trigger] final(self).cfg_file_wf(g) == old(self).cfg_file_wf(g)),
            r is Err ==> *final(self) == *old(self),
    ;

    /// Truncate the service's log file ahead of a fresh spawn.
    fn reset_log(&mut self, service: &ManagedService) -> (r: Result<(), AppError>)
        ensures
            old(self).infallible() ==> r is Ok && final(self).infallible(),
            r is Ok ==> (forall|g: Seq<char>|
                    g != service.log_filename@ ==> #[trigger] final(self).pid_record(g) == old(self).pid_record(g))
                && (forall|g: Seq<char>|
                    g != service.log_filename@ ==> #[trigger] final(self).cfg_record(g) == old(self).cfg_record(g))
                && (forall|g: Seq<char>|
                    g != service.log_filename@ ==> #[trigger] final(self).pid_file_wf(g) == old(self).pid_file_wf(g))
                && (forall|g: Seq<char>|
                    g != service.log_filename@ ==> #[trigger] final(self).cfg_file_wf(g) == old(self).cfg_file_wf(g)),
            r is Err ==> *final(self) == *old(self),
    ;
}

/// Every file other than `f` reads the same in both stores.
pub open spec fn others_same<S: StateStore>(a: &S, b: &S, f: Seq<char>) -> bool {
    &&& forall|g: Seq<char>| g != f ==> #[trigger] b.pid_record(g) == a.pid_record(g)
    &&& forall|g: Seq<char>| g != f ==> #[trigger] b.cfg_record(g) == a.cfg_record(g)
    &&& forall|g: Seq<char>| g != f ==> #[trigger] b.pid_file_wf(g) == a.pid_file_wf(g)
    &&& forall|g: Seq<char>| g != f ==> #[trigger] b.cfg_file_wf(g) == a.cfg_file_wf(g)
}

/// What a stored text reads as when interpreted as a PID record.
pub open spec fn pid_read(content: Option<Seq<char>>) -> Option<i32> {
    match content {
        None => None,
        Some(c) => match parse_pid_spec(c) {
            Ok(p) => p,
            Err(_) => None,
        },
    }
}

pub open spec fn pid_readable(content: Option<Seq<char>>) -> bool {
    match content {
        None => true,
        Some(c) => parse_pid_spec(c) is Ok,
    }
}

/// What a stored text reads as when interpreted as a runtime-config
/// record.
pub open spec fn cfg_read(content: Option<Seq<char>>) -> Option<(Seq<char>, u16)> {
    match content {
        None => None,
        Some(c) => match parse_cfg_spec(c) {
            Ok(v) => v,
            Err(_) => None,
        },
    }
}

pub open spec fn cfg_readable(content: Option<Seq<char>>) -> bool {
    match content {
        None => true,
        Some(c) => parse_cfg_spec(c) is Ok,
    }
}

/// First-match lookup in a list of named files.
pub open spec fn dir_lookup(entries: Seq<(String, String)>, name: Seq<char>) -> Option<Seq<char>>
    decreases entries.len(),
{
    if entries.len() == 0 {
        None
    } else if entries[0].0@ == name {
        Some(entries[0].1@)
    } else {
        dir_lookup(entries.drop_first(), name)
    }
}

proof fn lemma_lookup_absent(entries: Seq<(String, String)>, name: Seq<char>)
    requires
        forall|j: int| 0 <= j < entries.len() ==> (#[trigger] entries[j].0)@ != name,
    ensures
        dir_lookup(entries, name) is None,
    decreases entries.len(),
{
    if entries.len() > 0 {
        assert(forall|j: int|
            0 <= j < entries.len() - 1 ==> (#[trigger] entries.drop_first()[j]).0
                == entries[j + 1].0);
        lemma_lookup_absent(entries.drop_first(), name);
    }
}

proof fn lemma_lookup_at(entries: Seq<(String, String)>, i: int, name: Seq<char>)
    requires
        0 <= i < entries.len(),
        entries[i].0@ == name,
        forall|j: int| 0 <= j < i ==> (#[trigger] entries[j].0)@ != name,
    ensures
        dir_lookup(entries, name) == Some(entries[i].1@),
    decreases entries.len(),
{
    if i > 0 {
        let t = entries.drop_first();
        assert(forall|j: int| 0 <= j < i - 1 ==> (#[trigger] t[j]).0 == entries[j + 1].0);
        assert(t[i - 1] == entries[i]);
        lemma_lookup_at(t, i - 1, name);
    }
}

proof fn lemma_lookup_update(entries: Seq<(String, String)>, i: int, pair: (String, String))
    requires
        0 <= i < entries.len(),
        entries[i].0@ == pair.0@,
        forall|j: int| 0 <= j < i ==> (#[trigger] entries[j].0)@ != pair.0@,
    ensures
        dir_lookup(entries.update(i, pair), pair.0@) == Some(pair.1@),
        forall|g: Seq<char>|
            g != pair.0@ ==> #[trigger] dir_lookup(entries.update(i, pair), g) == dir_lookup(
                entries,
                g,
            ),
    decreases entries.len(),
{
    let u = entries.update(i, pair);
    assert(forall|j: int| 0 <= j < i ==> u[j] == entries[j]);
    assert(u[i] == pair);
    lemma_lookup_at(u, i, pair.0@);
    assert forall|g: Seq<char>|
        g != pair.0@ implies #[trigger] dir_lookup(u, g) == dir_lookup(entries, g) by {
        lemma_lookup_update_other(entries, i, pair, g);
    }
}

proof fn lemma_lookup_update_other(
    entries: Seq<(String, String)>,
    i: int,
    pair: (String, String),
    g: Seq<char>,
)
    requires
        0 <= i < entries.len(),
        entries[i].0@ == pair.0@,
        g != pair.0@,
    ensures
        dir_lookup(entries.update(i, pair), g) == dir_lookup(entries, g),
    decreases entries.len(),
{
    let u = entries.update(i, pair);
    if i == 0 {
        assert(u[0] == pair);
        assert(u.drop_first() =~= entries.drop_first());
    } else {
        assert(u[0] == entries[0]);
        if entries[0].0@ == g {
        } else {
            assert(u.drop_first() =~= entries.drop_first().update(i - 1, pair));
            assert(entries.drop_first()[i - 1] == entries[i]);
            lemma_lookup_update_other(entries.drop_first(), i - 1, pair, g);
        }
    }
}

proof fn lemma_lookup_push(entries: Seq<(String, String)>, pair: (String, String))
    requires
        forall|j: int| 0 <= j < entries.len() ==> (#[trigger] entries[j].0)@ != pair.0@,
    ensures
        dir_lookup(entries.push(pair), pair.0@) == Some(pair.1@),
        forall|g: Seq<char>|
            g != pair.0@ ==> #[trigger] dir_lookup(entries.push(pair), g) == dir_lookup(
                entries,
                g,
            ),
    decreases entries.len(),
{
    let u = entries.push(pair);
    lemma_lookup_at(u, entries.len() as int, pair.0@);
    assert forall|g: Seq<char>|
        g != pair.0@ implies #[trigger] dir_lookup(u, g) == dir_lookup(entries, g) by {
        lemma_lookup_push_other(entries, pair, g);
    }
}

proof fn lemma_lookup_push_other(
    entries: Seq<(String, String)>,
    pair: (String, String),
    g: Seq<char>,
)
    requires
        g != pair.0@,
    ensures
        dir_lookup(entries.push(pair), g) == dir_lookup(entries, g),
    decreases entries.len(),
{
    let u = entries.push(pair);
    if entries.len() == 0 {
        reveal_with_fuel(dir_lookup, 2);
        assert(u[0] == pair);
        assert(u.drop_first() =~= Seq::<(String, String)>::empty());
    } else {
        assert(u[0] == entries[0]);
        if entries[0].0@ == g {
        } else {
            assert(u.drop_first() =~= entries.drop_first().push(pair));
            lemma_lookup_push_other(entries.drop_first(), pair, g);
        }
    }
}

proof fn lemma_lookup_remove(entries: Seq<(String, String)>, i: int, g: Seq<char>)
    requires
        0 <= i < entries.len(),
        forall|j: int| 0 <= j < entries.len() && j != i ==> (#[trigger] entries[j].0)@
            != entries[i].0@,
    ensures
        dir_lookup(entries.remove(i), entries[i].0@) is None,
        g != entries[i].0@ ==> dir_lookup(entries.remove(i), g) == dir_lookup(entries, g),
    decreases entries.len(),
{
    let u = entries.remove(i);
    if i == 0 {
        assert(u =~= entries.drop_first());
        assert(forall|j: int|
            0 <= j < u.len() ==> (#[trigger] u[j]).0 == entries[j + 1].0);
        lemma_lookup_absent(u, entries[0].0@);
    } else {
        assert(u[0] == entries[0]);
        assert(u.drop_first() =~= entries.drop_first().remove(i - 1));
        assert(entries.drop_first()[i - 1] == entries[i]);
        assert(forall|j: int|
            0 <= j < entries.len() - 1 && j != i - 1 ==> (#[trigger] entries.drop_first()[j]).0
                == entries[j + 1].0);
        lemma_lookup_remove(entries.drop_first(), i - 1, g);
        lemma_lookup_remove(entries.drop_first(), i - 1, entries[i].0@);
        if entries[0].0@ == entries[i].0@ {
        }
        if g != entries[i].0@ {
            if entries[0].0@ == g {
            }
        }
    }
}

/// A verified in-memory state store: a directory of named files held as
/// name/content pairs with distinct names.
#[derive(Debug)]
pub struct MemStore {
    files: Vec<(String, String)>,
}

impl MemStore {
    /// Names are unique, so first-match lookup is exact lookup.
    pub closed spec fn names_unique(&self) -> bool {
        forall|a: int, b: int|
            0 <= a < b < self.files@.len() ==> (#[trigger] self.files@[a].0)@
                != (#[trigger] self.files@[b].0)@
    }

    /// The content stored under a name, if any.
    pub closed spec fn file_content(&self, name: Seq<char>) -> Option<Seq<char>> {
        dir_lookup(self.files@, name)
    }

    pub fn new() -> (r: Self)
        ensures
            r.infallible(),
            forall|f: Seq<char>| #[trigger] r.pid_record(f) is None,
            forall|f: Seq<char>| #[trigger] r.cfg_record(f) is None,
            forall|f: Seq<char>| #[trigger] r.pid_file_wf(f),
            forall|f: Seq<char>| #[trigger] r.cfg_file_wf(f),
    {
        let r = MemStore { files: Vec::new() };
        proof {
            assert(forall|f: Seq<char>| #[trigger] dir_lookup(r.files@, f) is None);
        }
        r
    }

    /// Index of the entry with this name, if present.
    fn find(&self, name: &str) -> (r: Option<usize>)
        requires
            self.names_unique(),
        ensures
            match r {
                Some(i) => i < self.files@.len() && self.files@[i as int].0@ == name@
                    && self.file_content(name@) == Some(self.files@[i as int].1@),
                None => self.file_content(name@) is None,
            },
    {
        let mut i: usize = 0;
        while i < self.files.len()
            invariant
                i <= self.files@.len(),
                self.names_unique(),
                forall|j: int| 0 <= j < i ==> (#[trigger] self.files@[j].0)@ != name@,
            decreases self.files@.len() - i,
        {
            if str_eq(self.files[i].0.as_str(), name) {
                proof {
                    lemma_lookup_at(self.files@, i as int, name@);
                }
                return Some(i);
            }
            i += 1;
        }
        proof {
            lemma_lookup_absent(self.files@, name@);
        }
        None
    }

    /// Create or replace the file `name` with `content`.
    pub fn put_file(&mut self, name: &str, content: String)
        requires
            old(self).names_unique(),
        ensures
            final(self).names_unique(),
            final(self).file_content(name@) == Some(content@),
            forall|g: Seq<char>|
                g != name@ ==> #[trigger] final(self).file_content(g) == old(self).file_content(
                    g,
                ),
    {
        let found = self.find(name);
        match found {
            Some(i) => {
                let pair = (String::from_str(name), content);
                proof {
                    lemma_lookup_update(self.files@, i as int, pair);
                    assert(forall|a: int|
                        0 <= a < self.files@.len() && a != i ==> #[trigger] self.files@.update(
                            i as int,
                            pair,
                        )[a] == self.files@[a]);
                }
                self.files[i] = pair;
            },
            None => {
                let pair = (String::from_str(name), content);
                proof {
                    assert forall|j: int|
                        0 <= j < self.files@.len() implies (#[trigger] self.files@[j].0)@
                        != pair.0@ by {
                        if self.files@[j].0@ == name@ {
                            lemma_lookup_at_exists(self.files@, j, name@);
                        }
                    }
                    lemma_lookup_push(self.files@, pair);
                }
                self.files.push(pair);
            },
        }
    }

    /// Delete the file `name`; absence is success.
    fn delete_file(&mut self, name: &str)
        requires
            old(self).names_unique(),
        ensures
            final(self).names_unique(),
            final(self).file_content(name@) is None,
            forall|g: Seq<char>|
                g != name@ ==> #[trigger] final(self).file_content(g) == old(self).file_content(
                    g,
                ),
    {
        let found = self.find(name);
        match found {
            Some(i) => {
                proof {
                    assert forall|j: int|
                        0 <= j < self.files@.len() && j != i implies (#[trigger] self.files@[j].0)@
                        != self.files@[i as int].0@ by {}
                    assert forall|g: Seq<char>| true implies #[trigger] dir_lookup(
                        self.files@.remove(i as int),
                        g,
                    ) == (if g == name@ {
                        Option::<Seq<char>>::None
                    } else {
                        dir_lookup(self.files@, g)
                    }) by {
                        lemma_lookup_remove(self.files@, i as int, g);
                    }
                    lemma_remove_unique(self.files@, i as int);
                }
                self.files.remove(i);
            },
            None => {},
        }
    }
}

proof fn lemma_lookup_at_exists(entries: Seq<(String, String)>, i: int, name: Seq<char>)
    requires
        0 <= i < entries.len(),
        entries[i].0@ == name,
    ensures
        dir_lookup(entries, name) is Some,
    decreases entries.len(),
{
    if entries[0].0@ != name {
        assert(entries.drop_first()[i - 1] == entries[i]);
        lemma_lookup_at_exists(entries.drop_first(), i - 1, name);
    }
}

proof fn lemma_remove_unique(entries: Seq<(String, String)>, i: int)
    requires
        0 <= i < entries.len(),
        forall|a: int, b: int|
            0 <= a < b < entries.len() ==> (#[trigger] entries[a].0)@
                != (#[trigger] entries[b].0)@,
    ensures
        forall|a: int, b: int|
            0 <= a < b < entries.remove(i).len() ==> (#[trigger] entries.remove(i)[a].0)@
                != (#[trigger] entries.remove(i)[b].0)@,
{
    let u = entries.remove(i);
    assert forall|a: int, b: int|
        0 <= a < b < u.len() implies (#[trigger] u[a].0)@ != (#[trigger] u[b].0)@ by {
        let a2 = if a < i { a } else { a + 1 };
        let b2 = if b < i { b } else { b + 1 };
        assert(u[a] == entries[a2]);
        assert(u[b] == entries[b2]);
    }
}

impl StateStore for MemStore {
    closed spec fn pid_record(&self, file: Seq<char>) -> Option<i32> {
        pid_read(self.file_content(file))
    }

    closed spec fn cfg_record(&self, file: Seq<char>) -> Option<(Seq<char>, u16)> {
        cfg_read(self.file_content(file))
    }

    closed spec fn pid_file_wf(&self, file: Seq<char>) -> bool {
        pid_readable(self.file_content(file))
    }

    closed spec fn cfg_file_wf(&self, file: Seq<char>) -> bool {
        cfg_readable(self.file_content(file))
    }

    closed spec fn infallible(&self) -> bool {
        self.names_unique()
    }

    fn read_pid(&self, service: &ManagedService) -> (r: Result<Option<i32>, AppError>) {
        if !self.check_unique() {
            return Err(AppError::process_error(service.name.as_str(), "store state corrupted"));
        }
        match self.find(service.pid_filename.as_str()) {
            None => Ok(None),
            Some(i) => {
                match parse_pid_record(self.files[i].1.as_str()) {
                    Ok(p) => Ok(p),
                    Err(_) => Err(
                        AppError::process_error(service.name.as_str(), "invalid pid record"),
                    ),
                }
            },
        }
    }

    fn write_pid(&mut self, service: &ManagedService, pid: i32) -> (r: Result<(), AppError>) {
        if !self.check_unique() {
            return Err(AppError::process_error(service.name.as_str(), "store state corrupted"));
        }
        let content = format_pid_record(pid);
        proof {
            crate::records::lemma_pid_roundtrip(pid);
        }
        self.put_file(service.pid_filename.as_str(), content);
        Ok(())
    }

    fn remove_pid(&mut self, service: &ManagedService) -> (r: Result<(), AppError>) {
        if !self.check_unique() {
            return Err(AppError::process_error(service.name.as_str(), "store state corrupted"));
        }
        self.delete_file(service.pid_filename.as_str());
        Ok(())
    }

    fn read_config(&self, service: &ManagedService) -> (r: Result<
        Option<(String, u16)>,
        AppError,
    >) {
        if !self.check_unique() {
            return Err(AppError::process_error(service.name.as_str(), "store state corrupted"));
        }
        match self.find(service.config_filename.as_str()) {
            None => Ok(None),
            Some(i) => {
                proof {
                    crate::records::lemma_parse_cfg_host_wf(self.files@[i as int].1@);
                }
                match parse_cfg_record(self.files[i].1.as_str()) {
                    Ok(v) => Ok(v),
                    Err(_) => Err(
                        AppError::process_error(service.name.as_str(), "invalid port value"),
                    ),
                }
            },
        }
    }

    fn write_config(&mut self, service: &ManagedService) -> (r: Result<(), AppError>) {
        if !self.check_unique() {
            return Err(AppError::process_error(service.name.as_str(), "store state corrupted"));
        }
        let content = format_cfg_record(service.host.as_str(), service.port);
        proof {
            crate::records::lemma_cfg_roundtrip(service.host@, service.port);
        }
        self.put_file(service.config_filename.as_str(), content);
        Ok(())
    }

    fn remove_config(&mut self, service: &ManagedService) -> (r: Result<(), AppError>) {
        if !self.check_unique() {
            return Err(AppError::process_error(service.name.as_str(), "store state corrupted"));
        }
        self.delete_file(service.config_filename.as_str());
        Ok(())
    }

    fn reset_log(&mut self, service: &ManagedService) -> (r: Result<(), AppError>) {
        if !self.check_unique() {
            return Err(AppError::process_error(service.name.as_str(), "store state corrupted"));
        }
        self.put_file(service.log_filename.as_str(), String::new());
        Ok(())
    }
}

impl MemStore {
    /// Runtime check that the directory invariant holds; the store's own
    /// operations always preserve it.
    fn check_unique(&self) -> (r: bool)
        ensures
            r == self.names_unique(),
    {
        let mut a: usize = 0;
        while a < self.files.len()
            invariant
                a <= self.files@.len(),
                forall|x: int, y: int|
                    0 <= x < y < self.files@.len() && x < a ==> (#[trigger] self.files@[x].0)@
                        != (#[trigger] self.files@[y].0)@,
            decreases self.files@.len() - a,
        {
            let mut b: usize = a + 1;
            while b < self.files.len()
                invariant
                    a < self.files@.len(),
                    a + 1 <= b <= self.files@.len(),
                    forall|y: int|
                        a < y < b ==> (#[trigger] self.files@[y].0)@ != self.files@[a as int].0@,
                decreases self.files@.len() - b,
            {
                if str_eq(self.files[a].0.as_str(), self.files[b].0.as_str()) {
                    return false;
                }
                b += 1;
            }
            a += 1;
        }
        true
    }
}

} // verus!
