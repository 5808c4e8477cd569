//! Liveness monitoring through a lock file per token: the configuration that
//! places the files, the names listed from a directory, and what a token
//! holder or an observer concludes from what the operating system reported.
use vstd::prelude::*;

use crate::named_concept::{
    is_valid_file_name, is_valid_path, FileName, Path, SEPARATOR,
};

verus! {

/// What an observer can tell of a monitored process.
#[derive(Debug, Clone, Copy, PartialEq, Eq, Structural)]
pub enum State {
    Alive,
    Dead,
    DoesNotExist,
}

/// What the operating system reports of a process state file.
#[derive(Debug, Clone, Copy, PartialEq, Eq, Structural)]
pub enum ProcessState {
    Alive,
    Dead,
    DoesNotExist,
    InInitialization,
}

/// Why the state of a process could not be read.
#[derive(Debug, Clone, Copy, PartialEq, Eq, Structural)]
pub enum ProcessMonitorStateError {
    Interrupt,
    Other,
}

/// Why a process guard (the lock file held by a token) could not be created.
#[derive(Debug, Clone, Copy, PartialEq, Eq, Structural)]
pub enum ProcessGuardCreateError {
    InsufficientPermissions,
    AlreadyExists,
    Other,
}

/// Why a process monitor could not be opened.
#[derive(Debug, Clone, Copy, PartialEq, Eq, Structural)]
pub enum ProcessMonitorCreateError {
    InsufficientPermissions,
    Interrupt,
    Other,
}

/// Why a directory could not be opened.
#[derive(Debug, Clone, Copy, PartialEq, Eq, Structural)]
pub enum DirectoryOpenError {
    InsufficientPermissions,
    DoesNotExist,
    Other,
}

/// Why the contents of an open directory could not be read.
#[derive(Debug, Clone, Copy, PartialEq, Eq, Structural)]
pub enum DirectoryReadError {
    InsufficientPermissions,
    Other,
}

/// Why a file could not be removed.
#[derive(Debug, Clone, Copy, PartialEq, Eq, Structural)]
pub enum FileRemoveError {
    InsufficientPermissions,
    Other,
}

/// Why the existence of a file could not be determined.
#[derive(Debug, Clone, Copy, PartialEq, Eq, Structural)]
pub enum FileAccessError {
    InsufficientPermissions,
    Other,
}

/// Why the state of a monitored process is not known.
#[derive(Debug, Clone, Copy, PartialEq, Eq, Structural)]
pub enum MonitoringStateError {
    Interrupt,
    InternalError,
}

/// Why a token could not be created.
#[derive(Debug, Clone, Copy, PartialEq, Eq, Structural)]
pub enum MonitoringCreateTokenError {
    InsufficientPermissions,
    AlreadyExists,
    InternalError,
}

/// Why a monitor could not be opened.
#[derive(Debug, Clone, Copy, PartialEq, Eq, Structural)]
pub enum MonitoringCreateMonitorError {
    InsufficientPermissions,
    Interrupt,
    InternalError,
}

/// Why the monitoring files could not be listed.
#[derive(Debug, Clone, Copy, PartialEq, Eq, Structural)]
pub enum NamedConceptListError {
    InsufficientPermissions,
    InternalError,
}

/// Why the existence of a monitoring file is not known.
#[derive(Debug, Clone, Copy, PartialEq, Eq, Structural)]
pub enum NamedConceptDoesExistError {
    InternalError,
}

/// Why a monitoring file could not be removed.
#[derive(Debug, Clone, Copy, PartialEq, Eq, Structural)]
pub enum NamedConceptRemoveError {
    InsufficientPermissions,
    InternalError,
}

/// The prefix of monitoring files unless configured otherwise: `iox2_`.
pub open spec fn default_prefix() -> Seq<u8> {
    seq![105u8, 111u8, 120u8, 50u8, 95u8]
}

/// The suffix of monitoring files unless configured otherwise: `.monitor`.
pub open spec fn default_suffix() -> Seq<u8> {
    seq![46u8, 109u8, 111u8, 110u8, 105u8, 116u8, 111u8, 114u8]
}

/// The directory of monitoring files unless configured otherwise: `/tmp`.
pub open spec fn default_path_hint() -> Seq<u8> {
    seq![47u8, 116u8, 109u8, 112u8]
}

/// Where the monitoring files live and how their names are framed.
#[derive(Debug)]
pub struct Configuration {
    suffix: FileName,
    prefix: FileName,
    path_hint: Path,
}

} // verus!

verus! {

impl Configuration {
    /// The default configuration: prefix `iox2_`, suffix `.monitor`, files in
    /// `/tmp`.
    pub fn default() -> (r: Self)
        ensures
            r.spec_prefix() == default_prefix(),
            r.spec_suffix() == default_suffix(),
            r.spec_path_hint() == default_path_hint(),
    {
        let prefix: [u8; 5] = [105u8, 111u8, 120u8, 50u8, 95u8];
        let suffix: [u8; 8] = [46u8, 109u8, 111u8, 110u8, 105u8, 116u8, 111u8, 114u8];
        let path_hint: [u8; 4] = [47u8, 116u8, 109u8, 112u8];
        assert(prefix@ =~= default_prefix());
        assert(suffix@ =~= default_suffix());
        assert(path_hint@ =~= default_path_hint());
        assert(is_valid_file_name(prefix@));
        assert(is_valid_file_name(suffix@));
        assert(is_valid_path(path_hint@));
        Configuration {
            suffix: FileName::from_valid(suffix.as_slice()),
            prefix: FileName::from_valid(prefix.as_slice()),
            path_hint: Path::from_valid(path_hint.as_slice()),
        }
    }

    /// The configured prefix.
    pub closed spec fn spec_prefix(&self) -> Seq<u8> {
        self.prefix@
    }

    /// The configured suffix.
    pub closed spec fn spec_suffix(&self) -> Seq<u8> {
        self.suffix@
    }

    /// The configured directory.
    pub closed spec fn spec_path_hint(&self) -> Seq<u8> {
        self.path_hint@
    }

    /// Replaces the prefix.
    pub fn prefix(self, value: FileName) -> (r: Self)
        ensures
            r.spec_prefix() == value@,
            r.spec_suffix() == self.spec_suffix(),
            r.spec_path_hint() == self.spec_path_hint(),
    {
        Configuration { prefix: value, ..self }
    }

    /// The prefix of the file names.
    pub fn get_prefix(&self) -> (r: &FileName)
        ensures
            r@ == self.spec_prefix(),
    {
        &self.prefix
    }

    /// Replaces the suffix.
    pub fn suffix(self, value: FileName) -> (r: Self)
        ensures
            r.spec_suffix() == value@,
            r.spec_prefix() == self.spec_prefix(),
            r.spec_path_hint() == self.spec_path_hint(),
    {
        Configuration { suffix: value, ..self }
    }

    /// The suffix of the file names.
    pub fn get_suffix(&self) -> (r: &FileName)
        ensures
            r@ == self.spec_suffix(),
    {
        &self.suffix
    }

    /// Replaces the directory.
    pub fn path_hint(self, value: Path) -> (r: Self)
        ensures
            r.spec_path_hint() == value@,
            r.spec_prefix() == self.spec_prefix(),
            r.spec_suffix() == self.spec_suffix(),
    {
        Configuration { path_hint: value, ..self }
    }

    /// The directory of the files.
    pub fn get_path_hint(&self) -> (r: &Path)
        ensures
            r@ == self.spec_path_hint(),
    {
        &self.path_hint
    }
}

impl Clone for Configuration {
    fn clone(&self) -> (r: Self)
        ensures
            r.spec_prefix() == self.spec_prefix(),
            r.spec_suffix() == self.spec_suffix(),
            r.spec_path_hint() == self.spec_path_hint(),
    {
        Configuration {
            suffix: self.suffix.clone(),
            prefix: self.prefix.clone(),
            path_hint: self.path_hint.clone(),
        }
    }
}

} // verus!

verus! {

/// `f` starts with `p` and ends with `s`, the two not overlapping.
pub open spec fn has_frame(p: Seq<u8>, s: Seq<u8>, f: Seq<u8>) -> bool {
    &&& f.len() >= p.len() + s.len()
    &&& f.subrange(0, p.len() as int) == p
    &&& f.subrange(f.len() - s.len(), f.len() as int) == s
}

/// The name framed by prefix `p` and suffix `s` in the file name `f`, when
/// there is one and it is itself a valid file name.
pub open spec fn extracted_name(p: Seq<u8>, s: Seq<u8>, f: Seq<u8>) -> Option<Seq<u8>> {
    if has_frame(p, s, f) {
        let m = f.subrange(p.len() as int, f.len() - s.len());
        if is_valid_file_name(m) {
            Some(m)
        } else {
            None
        }
    } else {
        None
    }
}

/// The full path of the file that stands for `name`: the directory, a
/// separator unless the directory is empty or ends in one, then prefix, name
/// and suffix.
pub open spec fn full_path(hint: Seq<u8>, p: Seq<u8>, name: Seq<u8>, s: Seq<u8>) -> Seq<u8> {
    if hint.len() == 0 || hint.last() == SEPARATOR {
        hint + p + name + s
    } else {
        hint + seq![SEPARATOR] + p + name + s
    }
}

fn matches_at(f: &[u8], start: usize, pat: &[u8]) -> (r: bool)
    requires
        start + pat@.len() <= f@.len(),
    ensures
        r == (f@.subrange(start as int, start + pat@.len()) == pat@),
{
    let n: usize = f.len();
    let mut i: usize = 0;
    while i < pat.len()
        invariant
            n == f@.len(),
            start + pat@.len() <= f@.len(),
            i <= pat@.len(),
            forall|j: int| 0 <= j < i ==> f@[start + j] == #[trigger] pat@[j],
        decreases pat@.len() - i,
    {
        if f[start + i] != pat[i] {
            assert(f@.subrange(start as int, start + pat@.len())[i as int] != pat@[i as int]);
            return false;
        }
        i = i + 1;
    }
    assert(f@.subrange(start as int, start + pat@.len()) =~= pat@);
    true
}

fn copy_range(f: &[u8], a: usize, b: usize) -> (r: Vec<u8>)
    requires
        a <= b <= f@.len(),
    ensures
        r@ == f@.subrange(a as int, b as int),
{
    let mut r: Vec<u8> = Vec::new();
    let mut i: usize = a;
    while i < b
        invariant
            a <= i <= b <= f@.len(),
            r@ == f@.subrange(a as int, i as int),
        decreases b - i,
    {
        r.push(f[i]);
        i = i + 1;
        assert(r@ =~= f@.subrange(a as int, i as int));
    }
    r
}

fn append_bytes(v: &mut Vec<u8>, b: &[u8])
    ensures
        final(v)@ == old(v)@ + b@,
{
    let mut i: usize = 0;
    while i < b.len()
        invariant
            i <= b@.len(),
            v@ == old(v)@ + b@.subrange(0, i as int),
        decreases b@.len() - i,
    {
        v.push(b[i]);
        i = i + 1;
        assert(v@ =~= old(v)@ + b@.subrange(0, i as int));
    }
    assert(b@.subrange(0, b@.len() as int) =~= b@);
}

impl Configuration {
    /// The name that the file `file` stands for: the part between prefix and
    /// suffix, when `file` carries both and that part is a valid name.
    pub fn extract_name_from_file(&self, file: &FileName) -> (r: Option<FileName>)
        ensures
            match r {
                Some(n) => extracted_name(self.spec_prefix(), self.spec_suffix(), file@) == Some(n@),
                None => extracted_name(self.spec_prefix(), self.spec_suffix(), file@) is None,
            },
    {
        let f = file.as_bytes();
        let p = self.prefix.as_bytes();
        let s = self.suffix.as_bytes();
        if f.len() < p.len() || f.len() - p.len() < s.len() {
            return None;
        }
        if !matches_at(f, 0, p) || !matches_at(f, f.len() - s.len(), s) {
            return None;
        }
        let middle = copy_range(f, p.len(), f.len() - s.len());
        match FileName::new(middle.as_slice()) {
            Ok(n) => Some(n),
            Err(_) => None,
        }
    }

    /// The path of the file that stands for `name`.
    pub fn path_for(&self, name: &FileName) -> (r: Vec<u8>)
        ensures
            r@ == full_path(self.spec_path_hint(), self.spec_prefix(), name@, self.spec_suffix()),
    {
        let hint = self.path_hint.as_bytes();
        let mut r: Vec<u8> = Vec::new();
        append_bytes(&mut r, hint);
        if hint.len() > 0 && hint[hint.len() - 1] != SEPARATOR {
            r.push(SEPARATOR);
        }
        append_bytes(&mut r, self.prefix.as_bytes());
        append_bytes(&mut r, name.as_bytes());
        append_bytes(&mut r, self.suffix.as_bytes());
        assert(r@ =~= full_path(self.spec_path_hint(), self.spec_prefix(), name@, self.spec_suffix()));
        r
    }
}

} // verus!

verus! {

/// One entry of a directory listing.
#[derive(Debug)]
pub struct DirectoryEntry {
    pub name: FileName,
    pub is_file: bool,
}

/// The names that the regular files among `entries` stand for, in listing
/// order.
pub open spec fn listed_names(p: Seq<u8>, s: Seq<u8>, entries: Seq<DirectoryEntry>) -> Seq<
    Seq<u8>,
>
    decreases entries.len(),
{
    if entries.len() == 0 {
        Seq::empty()
    } else {
        let rest = listed_names(p, s, entries.drop_last());
        let e = entries.last();
        if e.is_file {
            match extracted_name(p, s, e.name@) {
                Some(n) => rest.push(n),
                None => rest,
            }
        } else {
            rest
        }
    }
}

/// The views of a sequence of names.
pub open spec fn name_views(names: Seq<FileName>) -> Seq<Seq<u8>> {
    names.map_values(|n: FileName| n@)
}

/// Monitoring of processes through lock files.
pub struct FileLockMonitoring {}

impl FileLockMonitoring {
    /// The names of the monitoring files found in the configured directory.
    /// `listing` is what opening the directory and reading its contents gave:
    /// a directory that does not exist holds no names, missing permissions
    /// are reported as such and every other failure as internal.
    pub fn list_cfg(
        cfg: &Configuration,
        listing: Result<Result<Vec<DirectoryEntry>, DirectoryReadError>, DirectoryOpenError>,
    ) -> (r: Result<Vec<FileName>, NamedConceptListError>)
        ensures
            match listing {
                Err(DirectoryOpenError::DoesNotExist) => r is Ok && r->Ok_0@.len() == 0,
                Err(DirectoryOpenError::InsufficientPermissions) => r == Err::<
                    Vec<FileName>,
                    NamedConceptListError,
                >(NamedConceptListError::InsufficientPermissions),
                Err(DirectoryOpenError::Other) => r == Err::<Vec<FileName>, NamedConceptListError>(
                    NamedConceptListError::InternalError,
                ),
                Ok(Err(DirectoryReadError::InsufficientPermissions)) => r == Err::<
                    Vec<FileName>,
                    NamedConceptListError,
                >(NamedConceptListError::InsufficientPermissions),
                Ok(Err(DirectoryReadError::Other)) => r == Err::<
                    Vec<FileName>,
                    NamedConceptListError,
                >(NamedConceptListError::InternalError),
                Ok(Ok(entries)) => r is Ok && name_views(r->Ok_0@) == listed_names(
                    cfg.spec_prefix(),
                    cfg.spec_suffix(),
                    entries@,
                ),
            },
    {
        let entries = match listing {
            Err(DirectoryOpenError::DoesNotExist) => {
                return Ok(Vec::new());
            },
            Err(DirectoryOpenError::InsufficientPermissions) => {
                return Err(NamedConceptListError::InsufficientPermissions);
            },
            Err(DirectoryOpenError::Other) => {
                return Err(NamedConceptListError::InternalError);
            },
            Ok(Err(DirectoryReadError::InsufficientPermissions)) => {
                return Err(NamedConceptListError::InsufficientPermissions);
            },
            Ok(Err(DirectoryReadError::Other)) => {
                return Err(NamedConceptListError::InternalError);
            },
            Ok(Ok(entries)) => entries,
        };
        let ghost p = cfg.spec_prefix();
        let ghost s = cfg.spec_suffix();
        let mut names: Vec<FileName> = Vec::new();
        let mut i: usize = 0;
        while i < entries.len()
            invariant
                i <= entries@.len(),
                p == cfg.spec_prefix(),
                s == cfg.spec_suffix(),
                name_views(names@) == listed_names(p, s, entries@.subrange(0, i as int)),
            decreases entries@.len() - i,
        {
            let ghost before = names@;
            let entry = &entries[i];
            assert(entries@.subrange(0, i + 1).drop_last() =~= entries@.subrange(0, i as int));
            assert(entries@.subrange(0, i + 1).last() == entries@[i as int]);
            if entry.is_file {
                match cfg.extract_name_from_file(&entry.name) {
                    Some(n) => {
                        names.push(n);
                        assert(name_views(names@) =~= name_views(before).push(n@));
                    },
                    None => {},
                }
            }
            i = i + 1;
        }
        assert(entries@.subrange(0, entries@.len() as int) =~= entries@);
        Ok(names)
    }

    /// Whether the monitoring file for `name` exists, from what checking for
    /// the file at `cfg.path_for(name)` gave; any failure is internal.
    pub fn does_exist_cfg(
        name: &FileName,
        cfg: &Configuration,
        checked: Result<bool, FileAccessError>,
    ) -> (r: Result<bool, NamedConceptDoesExistError>)
        ensures
            match checked {
                Ok(v) => r == Ok::<bool, NamedConceptDoesExistError>(v),
                Err(_) => r == Err::<bool, NamedConceptDoesExistError>(
                    NamedConceptDoesExistError::InternalError,
                ),
            },
    {
        match checked {
            Ok(v) => Ok(v),
            Err(_) => Err(NamedConceptDoesExistError::InternalError),
        }
    }

    /// Whether the monitoring file for `name` was removed, from what removing
    /// the file at `cfg.path_for(name)` gave: `false` when there was none.
    pub fn remove_cfg(
        name: &FileName,
        cfg: &Configuration,
        removed: Result<bool, FileRemoveError>,
    ) -> (r: Result<bool, NamedConceptRemoveError>)
        ensures
            match removed {
                Ok(v) => r == Ok::<bool, NamedConceptRemoveError>(v),
                Err(FileRemoveError::InsufficientPermissions) => r == Err::<
                    bool,
                    NamedConceptRemoveError,
                >(NamedConceptRemoveError::InsufficientPermissions),
                Err(FileRemoveError::Other) => r == Err::<bool, NamedConceptRemoveError>(
                    NamedConceptRemoveError::InternalError,
                ),
            },
    {
        match removed {
            Ok(v) => Ok(v),
            Err(FileRemoveError::InsufficientPermissions) => Err(
                NamedConceptRemoveError::InsufficientPermissions,
            ),
            Err(FileRemoveError::Other) => Err(NamedConceptRemoveError::InternalError),
        }
    }
}

} // verus!

verus! {

/// The state an observer reports for what the operating system said of the
/// process: a process still initialising counts as not existing, an
/// interrupt is passed on and any other failure is internal.
pub open spec fn observed_state(observed: Result<ProcessState, ProcessMonitorStateError>) -> Result<
    State,
    MonitoringStateError,
> {
    match observed {
        Ok(ProcessState::Alive) => Ok(State::Alive),
        Ok(ProcessState::Dead) => Ok(State::Dead),
        Ok(ProcessState::DoesNotExist) => Ok(State::DoesNotExist),
        Ok(ProcessState::InInitialization) => Ok(State::DoesNotExist),
        Err(ProcessMonitorStateError::Interrupt) => Err(MonitoringStateError::Interrupt),
        Err(ProcessMonitorStateError::Other) => Err(MonitoringStateError::InternalError),
    }
}

/// Held by a process to advertise that it is alive.
#[derive(Debug)]
pub struct Token {
    name: FileName,
}

impl Token {
    /// The name.
    pub closed spec fn spec_name(&self) -> Seq<u8> {
        self.name@
    }

    /// The name of the token.
    pub fn name(&self) -> (r: &FileName)
        ensures
            r@ == self.spec_name(),
    {
        &self.name
    }
}

/// Observes the token of another process.
#[derive(Debug)]
pub struct Monitor {
    name: FileName,
}

impl Monitor {
    /// The name.
    pub closed spec fn spec_name(&self) -> Seq<u8> {
        self.name@
    }

    /// The name of the observed token.
    pub fn name(&self) -> (r: &FileName)
        ensures
            r@ == self.spec_name(),
    {
        &self.name
    }

    /// The state of the observed process, from what querying its state file
    /// gave.
    pub fn state(&self, observed: Result<ProcessState, ProcessMonitorStateError>) -> (r: Result<
        State,
        MonitoringStateError,
    >)
        ensures
            r == observed_state(observed),
    {
        match observed {
            Ok(ProcessState::Alive) => Ok(State::Alive),
            Ok(ProcessState::Dead) => Ok(State::Dead),
            Ok(ProcessState::DoesNotExist) | Ok(ProcessState::InInitialization) => Ok(
                State::DoesNotExist,
            ),
            Err(ProcessMonitorStateError::Interrupt) => Err(MonitoringStateError::Interrupt),
            Err(ProcessMonitorStateError::Other) => Err(MonitoringStateError::InternalError),
        }
    }
}

/// Creates tokens and monitors of a given name.
#[derive(Debug)]
pub struct Builder {
    name: FileName,
    config: Configuration,
}

impl Builder {
    /// The name.
    pub closed spec fn spec_name(&self) -> Seq<u8> {
        self.name@
    }

    /// Prefix, suffix and directory of the configuration.
    pub closed spec fn spec_config(&self) -> (Seq<u8>, Seq<u8>, Seq<u8>) {
        (self.config.spec_prefix(), self.config.spec_suffix(), self.config.spec_path_hint())
    }

    /// A builder for `name` with the default configuration.
    pub fn new(name: &FileName) -> (r: Self)
        ensures
            r.spec_name() == name@,
            r.spec_config() == (default_prefix(), default_suffix(), default_path_hint()),
    {
        Builder { name: name.clone(), config: Configuration::default() }
    }

    /// Replaces the configuration.
    pub fn config(self, config: &Configuration) -> (r: Self)
        ensures
            r.spec_name() == self.spec_name(),
            r.spec_config() == (config.spec_prefix(), config.spec_suffix(), config.spec_path_hint()),
    {
        Builder { name: self.name, config: config.clone() }
    }

    /// The path of the process state file that tokens and monitors of this
    /// builder use.
    pub fn process_state_path(&self) -> (r: Vec<u8>)
        ensures
            r@ == full_path(
                self.spec_config().2,
                self.spec_config().0,
                self.spec_name(),
                self.spec_config().1,
            ),
    {
        self.config.path_for(&self.name)
    }

    /// The token, from what creating the process guard at
    /// `process_state_path()` gave.
    pub fn create(self, guard: Result<(), ProcessGuardCreateError>) -> (r: Result<
        Token,
        MonitoringCreateTokenError,
    >)
        ensures
            match guard {
                Ok(()) => r is Ok && r->Ok_0.spec_name() == self.spec_name(),
                Err(ProcessGuardCreateError::InsufficientPermissions) => r is Err && r->Err_0
                    == MonitoringCreateTokenError::InsufficientPermissions,
                Err(ProcessGuardCreateError::AlreadyExists) => r is Err && r->Err_0
                    == MonitoringCreateTokenError::AlreadyExists,
                Err(ProcessGuardCreateError::Other) => r is Err && r->Err_0
                    == MonitoringCreateTokenError::InternalError,
            },
    {
        match guard {
            Ok(()) => Ok(Token { name: self.name }),
            Err(ProcessGuardCreateError::InsufficientPermissions) => Err(
                MonitoringCreateTokenError::InsufficientPermissions,
            ),
            Err(ProcessGuardCreateError::AlreadyExists) => Err(
                MonitoringCreateTokenError::AlreadyExists,
            ),
            Err(ProcessGuardCreateError::Other) => Err(MonitoringCreateTokenError::InternalError),
        }
    }

    /// The monitor, from what opening the process monitor at
    /// `process_state_path()` gave.
    pub fn monitor(self, opened: Result<(), ProcessMonitorCreateError>) -> (r: Result<
        Monitor,
        MonitoringCreateMonitorError,
    >)
        ensures
            match opened {
                Ok(()) => r is Ok && r->Ok_0.spec_name() == self.spec_name(),
                Err(ProcessMonitorCreateError::InsufficientPermissions) => r is Err && r->Err_0
                    == MonitoringCreateMonitorError::InsufficientPermissions,
                Err(ProcessMonitorCreateError::Interrupt) => r is Err && r->Err_0
                    == MonitoringCreateMonitorError::Interrupt,
                Err(ProcessMonitorCreateError::Other) => r is Err && r->Err_0
                    == MonitoringCreateMonitorError::InternalError,
            },
    {
        match opened {
            Ok(()) => Ok(Monitor { name: self.name }),
            Err(ProcessMonitorCreateError::InsufficientPermissions) => Err(
                MonitoringCreateMonitorError::InsufficientPermissions,
            ),
            Err(ProcessMonitorCreateError::Interrupt) => Err(
                MonitoringCreateMonitorError::Interrupt,
            ),
            Err(ProcessMonitorCreateError::Other) => Err(
                MonitoringCreateMonitorError::InternalError,
            ),
        }
    }
}

} // verus!
