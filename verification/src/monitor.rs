//! The decisions of the live monitor.
//!
//! Two loops keep the reported count fresh. One waits for changes below the
//! watch root and runs a pass for each write or creation. The other looks at
//! the process table at a fixed interval: when the mail client has gone it
//! reports the count as unknown, and when the client is back it runs a pass
//! at once. The loops themselves wait, read and write; what they do next is
//! decided here, from what they saw.

use crate::count::{count_all, first_failure, is_snapshot, CountError, Visit, VisitView};
use crate::decimal::line_of;
use crate::path::{Component, ComponentView};
use crate::settings::{emits, write_count, Emission, Settings};
use vstd::prelude::*;
use vstd::string::*;

verus! {

/// The base name of the mail client's executable, without extension.
pub const CLIENT_NAME: &'static str = "thunderbird";

/// What is reported while the mail client is not running: the count is
/// unknown.
pub const UNKNOWN: &'static str = "???";

/// The seconds for which a burst of change events is left to settle before
/// the monitor acts on it.
pub const DEBOUNCE_SECONDS: u64 = 2;

/// A character with the capital letters of ASCII turned to small ones, where
/// case is not to count.
pub open spec fn folded(c: char, fold_case: bool) -> char {
    if fold_case && 'A' <= c <= 'Z' {
        ((c as u8 + 32) as u8) as char
    } else {
        c
    }
}

/// Whether `stem`, the base name of an executable without its extension, is
/// the name of the mail client.
pub open spec fn names_client(stem: Seq<char>, fold_case: bool) -> bool {
    &&& stem.len() == CLIENT_NAME@.len()
    &&& forall|i: int| 0 <= i < stem.len() ==> folded(#[trigger] stem[i], fold_case) == CLIENT_NAME@[i]
}

/// Whether one of the processes is the mail client.
pub open spec fn any_client(stems: Seq<Seq<char>>, fold_case: bool) -> bool {
    exists|i: int| 0 <= i < stems.len() && names_client(#[trigger] stems[i], fold_case)
}

fn fold(c: char, fold_case: bool) -> (f: char)
    ensures
        f == folded(c, fold_case),
{
    if fold_case && 'A' <= c && c <= 'Z' {
        ((c as u8) + 32) as char
    } else {
        c
    }
}

/// Tells whether an executable of this base name is the mail client. On
/// platforms whose file names do not tell capital from small letters,
/// `fold_case` is to be set.
pub fn is_client(stem: &str, fold_case: bool) -> (yes: bool)
    ensures
        yes == names_client(stem@, fold_case),
{
    let n = stem.unicode_len();
    if n != CLIENT_NAME.unicode_len() {
        return false;
    }
    let mut i: usize = 0;
    while i < n
        invariant
            0 <= i <= n,
            n == stem@.len(),
            n == CLIENT_NAME@.len(),
            forall|j: int| 0 <= j < i ==> folded(#[trigger] stem@[j], fold_case) == CLIENT_NAME@[j],
        decreases n - i,
    {
        if fold(stem.get_char(i), fold_case) != CLIENT_NAME.get_char(i) {
            return false;
        }
        i = i + 1;
    }
    true
}

/// Scans the base names of the running executables for the mail client.
pub fn client_running(stems: &Vec<String>, fold_case: bool) -> (running: bool)
    ensures
        running == any_client(stems.deep_view(), fold_case),
{
    let mut i: usize = 0;
    while i < stems.len()
        invariant
            0 <= i <= stems.len(),
            forall|j: int| 0 <= j < i ==> !names_client(#[trigger] stems.deep_view()[j], fold_case),
        decreases stems.len() - i,
    {
        assert(stems.deep_view()[i as int] == stems@[i as int]@);
        if is_client(stems[i].as_str(), fold_case) {
            return true;
        }
        i = i + 1;
    }
    false
}

/// What one look at the process table showed.
#[derive(Clone, Copy, Debug, PartialEq, Eq, Structural)]
pub enum Sighting {
    /// The mail client is running.
    Running,
    /// The mail client is not running.
    Stopped,
    /// The process table could not be read.
    Unknown,
}

/// What the process-presence loop does after a look at the process table.
#[derive(Clone, Copy, Debug, PartialEq, Eq, Structural)]
pub enum Action {
    /// Nothing.
    Idle,
    /// Report the count as unknown.
    EmitUnknown,
    /// Run one aggregation pass and report its snapshot.
    Refresh,
}

/// What the process-presence loop remembers from one look to the next.
#[derive(Clone, Copy, Debug, PartialEq, Eq, Structural)]
pub struct Presence {
    /// Whether the mail client was running at the last look that told.
    pub running: bool,
    /// Whether no look has told yet.
    pub first: bool,
}

impl Presence {
    /// The state before the first look: the client counts as running, so
    /// that whatever the first look shows is a change or the first of its
    /// kind, and is acted upon.
    pub open spec fn initial() -> Presence {
        Presence { running: true, first: true }
    }

    /// The action that a sighting calls for in this state.
    pub open spec fn action_on(self, sighting: Sighting) -> Action {
        match sighting {
            Sighting::Unknown => Action::Idle,
            Sighting::Stopped => if self.running {
                Action::EmitUnknown
            } else {
                Action::Idle
            },
            Sighting::Running => if self.first || !self.running {
                Action::Refresh
            } else {
                Action::Idle
            },
        }
    }

    /// The state after a sighting. A look that could not tell leaves the
    /// state as it was.
    pub open spec fn after(self, sighting: Sighting) -> Presence {
        match sighting {
            Sighting::Unknown => self,
            Sighting::Stopped => Presence { running: false, first: false },
            Sighting::Running => Presence { running: true, first: false },
        }
    }

    /// The state with which the loop starts.
    pub fn start() -> (state: Presence)
        ensures
            state == Presence::initial(),
    {
        Presence { running: true, first: true }
    }

    /// Takes one look into account: gives the state to go on with and what
    /// to do now.
    pub fn observe(self, sighting: Sighting) -> (next: (Presence, Action))
        ensures
            next.0 == self.after(sighting),
            next.1 == self.action_on(sighting),
    {
        match sighting {
            Sighting::Unknown => (self, Action::Idle),
            Sighting::Stopped => {
                let action = if self.running {
                    Action::EmitUnknown
                } else {
                    Action::Idle
                };
                (Presence { running: false, first: false }, action)
            },
            Sighting::Running => {
                let action = if self.first || !self.running {
                    Action::Refresh
                } else {
                    Action::Idle
                };
                (Presence { running: true, first: false }, action)
            },
        }
    }
}

/// What a scan of the process table amounts to: `stems` holds the base names
/// of the running executables, or is `None` where the table could not be
/// read.
pub open spec fn sighting_of(stems: Option<Seq<Seq<char>>>, fold_case: bool) -> Sighting {
    match stems {
        None => Sighting::Unknown,
        Some(names) => if any_client(names, fold_case) {
            Sighting::Running
        } else {
            Sighting::Stopped
        },
    }
}

/// Turns a scan of the process table into a sighting.
pub fn sight(stems: Option<&Vec<String>>, fold_case: bool) -> (sighting: Sighting)
    ensures
        sighting == sighting_of(
            match stems {
                Some(names) => Some(names.deep_view()),
                None => None,
            },
            fold_case,
        ),
{
    match stems {
        None => Sighting::Unknown,
        Some(names) => if client_running(names, fold_case) {
            Sighting::Running
        } else {
            Sighting::Stopped
        },
    }
}

/// The loop acts on changes, once each: the client coming back calls for
/// one pass, the client going away for one report of the unknown count, and
/// a look that shows what the last one showed for nothing. The one exception
/// is the first look that tells, which calls for a pass where it shows the
/// client running, as the state before it counts the client as running. A
/// look that cannot tell does nothing and changes nothing.
pub proof fn lemma_acts_on_changes_only(state: Presence, sighting: Sighting)
    ensures
        !state.running && sighting == Sighting::Running ==> state.action_on(sighting)
            == Action::Refresh,
        state.running && sighting == Sighting::Stopped ==> state.action_on(sighting)
            == Action::EmitUnknown,
        !state.running && sighting == Sighting::Stopped ==> state.action_on(sighting)
            == Action::Idle,
        state.running && !state.first && sighting == Sighting::Running ==> state.action_on(
            sighting,
        ) == Action::Idle,
        sighting == Sighting::Unknown ==> state.action_on(sighting) == Action::Idle
            && state.after(sighting) == state,
        sighting != Sighting::Unknown ==> state.after(sighting) == (Presence {
            running: sighting == Sighting::Running,
            first: false,
        }),
{
}

/// The first look that tells is always acted upon: a pass where the client
/// is running, a report of the unknown count where it is not.
pub proof fn lemma_first_look_acts(sighting: Sighting)
    ensures
        sighting == Sighting::Running ==> Presence::initial().action_on(sighting)
            == Action::Refresh,
        sighting == Sighting::Stopped ==> Presence::initial().action_on(sighting)
            == Action::EmitUnknown,
        sighting != Sighting::Unknown ==> !Presence::initial().after(sighting).first,
{
}

/// A change below the watch root, as the debounced watcher reports it, or
/// the end of its reports.
#[derive(Debug, PartialEq, Eq)]
pub enum Change {
    /// A file was written.
    Write,
    /// A file was created.
    Create,
    /// Anything else.
    Other,
    /// The channel of reports has failed, and why.
    Lost(String),
}

/// What the filesystem-change loop does about a change.
#[derive(Debug, PartialEq, Eq)]
pub enum Reaction {
    /// Nothing: wait for the next change.
    Ignore,
    /// Run one aggregation pass and report its snapshot.
    Refresh,
    /// Hand the error on and end the loop.
    Fail(MonitorError),
}

/// What goes wrong while the monitor runs.
#[derive(Clone, Debug, PartialEq, Eq)]
pub enum MonitorError {
    /// A pass gave no snapshot.
    Update(CountError),
    /// A value could not be written to the output file.
    Sink { reason: String },
    /// The watcher could not be started.
    WatcherStart { reason: String },
    /// The watch root could not be watched.
    WatchRoot { path: String, reason: String },
    /// The channel of change reports failed.
    Events { reason: String },
    /// The filesystem-change loop is gone without a word.
    Disconnected,
}

impl MonitorError {
    /// Whether the monitor has to stop on this error. A pass that failed is
    /// reported and tried again at the next occasion; everything else means
    /// that the reported count would go stale without anybody noticing.
    pub open spec fn fatal(&self) -> bool {
        !(self is Update)
    }

    /// Tells whether the monitor has to stop on this error.
    pub fn is_fatal(&self) -> (stop: bool)
        ensures
            stop == self.fatal(),
    {
        match self {
            MonitorError::Update(_) => false,
            _ => true,
        }
    }
}

/// What the filesystem-change loop owes for a change.
pub open spec fn reacts(reaction: Reaction, change: Change) -> bool {
    match change {
        Change::Write | Change::Create => reaction is Refresh,
        Change::Other => reaction is Ignore,
        Change::Lost(reason) => reaction matches Reaction::Fail(MonitorError::Events { reason: told })
            && told@ == reason@,
    }
}

/// Decides what the filesystem-change loop does about a change: a pass for
/// a write or a creation, the end of the loop where the channel has failed,
/// and nothing otherwise.
pub fn on_change(change: Change) -> (reaction: Reaction)
    ensures
        reacts(reaction, change),
{
    match change {
        Change::Write => Reaction::Refresh,
        Change::Create => Reaction::Refresh,
        Change::Other => Reaction::Ignore,
        Change::Lost(reason) => Reaction::Fail(MonitorError::Events { reason }),
    }
}

/// What the process-presence loop found on the path by which the other loop
/// hands its errors on.
#[derive(Debug, PartialEq, Eq)]
pub enum Signal {
    /// Nothing.
    Quiet,
    /// An error.
    Failure(MonitorError),
    /// The other end of the path is closed.
    Closed,
}

/// How a loop goes on.
#[derive(Debug, PartialEq, Eq)]
pub enum Verdict {
    /// It goes on.
    Continue,
    /// It reports the error and goes on.
    Report(MonitorError),
    /// It ends with the error, and the monitor with it.
    Stop(MonitorError),
}

/// What the process-presence loop owes for a signal.
pub open spec fn judges(verdict: Verdict, signal: Signal) -> bool {
    match signal {
        Signal::Quiet => verdict is Continue,
        Signal::Closed => verdict == Verdict::Stop(MonitorError::Disconnected),
        Signal::Failure(error) => if error.fatal() {
            verdict == Verdict::Stop(error)
        } else {
            verdict == Verdict::Report(error)
        },
    }
}

/// Decides how the process-presence loop goes on after a look at the path
/// of errors: a failure of the other loop ends this one too.
pub fn on_signal(signal: Signal) -> (verdict: Verdict)
    ensures
        judges(verdict, signal),
{
    match signal {
        Signal::Quiet => Verdict::Continue,
        Signal::Closed => Verdict::Stop(MonitorError::Disconnected),
        Signal::Failure(error) => if error.is_fatal() {
            Verdict::Stop(error)
        } else {
            Verdict::Report(error)
        },
    }
}

/// What [`update_count`] owes.
pub open spec fn is_update_of(
    update: Result<Emission, CountError>,
    s: Settings,
    visits: Seq<VisitView>,
    base: Seq<ComponentView>,
) -> bool {
    match update {
        Ok(emission) => exists|totals: Seq<usize>|
            {
                &&& #[trigger] is_snapshot(totals, visits, base)
                &&& first_failure(visits, base) is None
                &&& emits(emission, s, line_of(totals))
            },
        Err(error) => first_failure(visits, base) == Some(error@),
    }
}

/// Runs one pass over what the walk found and says where its snapshot goes.
pub fn update_count(s: &Settings, watch_dir: &Vec<Component>, visits: &Vec<Visit>) -> (update:
    Result<Emission, CountError>)
    ensures
        is_update_of(update, *s, visits.deep_view(), watch_dir.deep_view()),
{
    match count_all(watch_dir, visits) {
        Ok(count) => {
            let line = count.display();
            Ok(write_count(s, line.as_str()))
        },
        Err(error) => Err(error),
    }
}

/// What [`update_and_log`] owes.
pub open spec fn is_logged_update_of(
    update: Result<Emission, MonitorError>,
    s: Settings,
    visits: Seq<VisitView>,
    base: Seq<ComponentView>,
) -> bool {
    match update {
        Ok(emission) => is_update_of(Ok(emission), s, visits, base),
        Err(error) => error matches MonitorError::Update(cause) && is_update_of(
            Err(cause),
            s,
            visits,
            base,
        ),
    }
}

/// Runs one pass after a change. Where the pass gives no snapshot, its
/// error comes back as one to hand on to the other loop: a failed update,
/// which does not end the monitor.
pub fn update_and_log(s: &Settings, watch_dir: &Vec<Component>, visits: &Vec<Visit>) -> (update:
    Result<Emission, MonitorError>)
    ensures
        is_logged_update_of(update, *s, visits.deep_view(), watch_dir.deep_view()),
        update matches Err(error) ==> !error.fatal(),
{
    match update_count(s, watch_dir, visits) {
        Ok(emission) => Ok(emission),
        Err(error) => Err(MonitorError::Update(error)),
    }
}

} // verus!
