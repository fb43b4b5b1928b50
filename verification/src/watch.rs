//! Running again when a file changes.
use crate::issue::path_views;
use crate::path::{FilePath, PathView};
use crate::text::{decimal, decimal_text};
use vstd::prelude::*;

verus! {

/// For how long nothing may change before a run, in milliseconds.
pub const DEBOUNCE: u64 = 200;

/// What happened to files.
#[derive(Debug, Clone, Copy, PartialEq, Eq, Structural)]
pub enum ChangeKind {
    Created,
    Modified,
    Removed,
    Other,
}

/// What comes in while files are watched.
#[derive(Debug)]
pub enum WatchEvent {
    Change { kind: ChangeKind, paths: Vec<FilePath> },
    /// The watcher reports an error.
    Error,
    /// Nothing came in for a while.
    Quiet,
    /// Nothing will come in any more.
    Closed,
}

/// What is to be done.
#[derive(Debug, Clone, Copy, PartialEq, Eq, Structural)]
pub enum WatchAction {
    Wait,
    Run,
    Report,
    Stop,
}

/// Since when a run is due, in milliseconds.
#[derive(Debug, Clone, Copy, PartialEq, Eq, Structural)]
pub struct WatchState {
    pub pending: Option<u64>,
}

/// Whether a change is one to a Python file.
pub open spec fn is_relevant(kind: ChangeKind, paths: Seq<PathView>) -> bool {
    kind != ChangeKind::Other && exists|i: int|
        0 <= i < paths.len() && (#[trigger] paths[i]).is_python()
}

/// Whether a change is one to a Python file.
pub fn event_is_relevant(kind: ChangeKind, paths: &Vec<FilePath>) -> (r: bool)
    ensures
        r == is_relevant(kind, path_views(paths@)),
{
    if kind == ChangeKind::Other {
        return false;
    }
    let ghost all = path_views(paths@);
    let mut i: usize = 0;
    while i < paths.len()
        invariant
            i <= paths@.len(),
            kind != ChangeKind::Other,
            all == path_views(paths@),
            forall|j: int| 0 <= j < i ==> !(#[trigger] all[j]).is_python(),
        decreases paths@.len() - i,
    {
        assert(all[i as int] == paths@[i as int]@);
        if paths[i].is_python() {
            return true;
        }
        i += 1;
    }
    false
}

/// Whether a run that is due since `since` may start.
pub open spec fn is_settled(pending: Option<u64>, now: u64) -> bool {
    pending matches Some(since) && now >= since && now - since >= DEBOUNCE
}

/// What comes of an event at a time.
pub open spec fn after(state: WatchState, event: WatchEvent, now: u64) -> (WatchState, WatchAction) {
    match event {
        WatchEvent::Change { kind, paths } => (
            if is_relevant(kind, path_views(paths@)) {
                WatchState { pending: Some(now) }
            } else {
                state
            },
            WatchAction::Wait,
        ),
        WatchEvent::Error => (state, WatchAction::Report),
        WatchEvent::Quiet => if is_settled(state.pending, now) {
            (WatchState { pending: None }, WatchAction::Run)
        } else {
            (state, WatchAction::Wait)
        },
        WatchEvent::Closed => (state, WatchAction::Stop),
    }
}

/// What comes of an event at a time: a change to a Python file makes a run due,
/// and it starts once nothing has changed for a while.
pub fn step(state: WatchState, event: &WatchEvent, now: u64) -> (r: (WatchState, WatchAction))
    ensures
        r == after(state, *event, now),
        match event {
            WatchEvent::Change { kind, paths } => r.1 == WatchAction::Wait && r.0.pending == (
            if is_relevant(*kind, path_views(paths@)) {
                Some(now)
            } else {
                state.pending
            }),
            WatchEvent::Error => r == (state, WatchAction::Report),
            WatchEvent::Quiet => if is_settled(state.pending, now) {
                r == ((WatchState { pending: None }), WatchAction::Run)
            } else {
                r == (state, WatchAction::Wait)
            },
            WatchEvent::Closed => r == (state, WatchAction::Stop),
        },
{
    match event {
        WatchEvent::Change { kind, paths } => if event_is_relevant(*kind, paths) {
            (WatchState { pending: Some(now) }, WatchAction::Wait)
        } else {
            (state, WatchAction::Wait)
        },
        WatchEvent::Error => (state, WatchAction::Report),
        WatchEvent::Quiet => match state.pending {
            Some(since) => if now >= since && now - since >= DEBOUNCE {
                (WatchState { pending: None }, WatchAction::Run)
            } else {
                (state, WatchAction::Wait)
            },
            None => (state, WatchAction::Wait),
        },
        WatchEvent::Closed => (state, WatchAction::Stop),
    }
}

/// A number in two places.
pub open spec fn two_places(n: nat) -> Seq<char> {
    if n < 10 {
        "0"@ + decimal(n)
    } else {
        decimal(n)
    }
}

/// The time of day in hours, minutes and seconds, of a time since the epoch.
pub open spec fn clock(seconds: nat) -> Seq<char> {
    let today = seconds % 86400;
    "["@ + two_places(today / 3600 % 24) + ":"@ + two_places(today / 60 % 60) + ":"@ + two_places(
        today % 60,
    ) + " UTC]"@
}

fn two(n: u64) -> (r: String)
    ensures
        r@ == two_places(n as nat),
{
    if n < 10 {
        let mut r = "0".to_owned();
        r.append(decimal_text(n).as_str());
        r
    } else {
        decimal_text(n)
    }
}

/// The time of day, of a time in seconds since the epoch.
pub fn clock_text(seconds: u64) -> (r: String)
    ensures
        r@ == clock(seconds as nat),
{
    let today: u64 = seconds % 86400;
    let mut r = "[".to_owned();
    r.append(two(today / 3600 % 24).as_str());
    r.append(":");
    r.append(two(today / 60 % 60).as_str());
    r.append(":");
    r.append(two(today % 60).as_str());
    r.append(" UTC]");
    r
}

/// A change to a Python file makes exactly one run due: it starts at the first quiet
/// moment that comes a fifth of a second or more after the last such change, not
/// before, and not again.
pub proof fn a_change_runs_once(
    state: WatchState,
    kind: ChangeKind,
    paths: Vec<FilePath>,
    changed_at: u64,
    now: u64,
    later: u64,
)
    requires
        is_relevant(kind, path_views(paths@)),
        changed_at <= now <= later,
    ensures
        ({
            let due = after(state, WatchEvent::Change { kind, paths }, changed_at);
            let quiet = after(due.0, WatchEvent::Quiet, now);
            let again = after(quiet.0, WatchEvent::Quiet, later);
            &&& due.1 == WatchAction::Wait
            &&& quiet.1 == (if now - changed_at >= 200 {
                WatchAction::Run
            } else {
                WatchAction::Wait
            })
            &&& again.1 == WatchAction::Run <==> quiet.1 == WatchAction::Wait && later
                - changed_at >= 200
        }),
{
}

/// A change to other files, an error and a quiet moment before it is time do not
/// touch a run that is due, nor do they start one; errors are reported, and only the
/// end of the watch stops it.
pub proof fn other_events_change_nothing(
    state: WatchState,
    kind: ChangeKind,
    paths: Vec<FilePath>,
    now: u64,
)
    requires
        !is_relevant(kind, path_views(paths@)),
    ensures
        after(state, WatchEvent::Change { kind, paths }, now) == (state, WatchAction::Wait),
        after(state, WatchEvent::Error, now) == (state, WatchAction::Report),
        after(state, WatchEvent::Closed, now).1 == WatchAction::Stop,
        state.pending is None ==> after(state, WatchEvent::Quiet, now) == (
            state,
            WatchAction::Wait,
        ),
{
}

/// A change counts if it creates, modifies or removes a file and one of the files is
/// a Python file, among however many others.
pub proof fn one_python_file_is_enough(kind: ChangeKind, paths: Seq<PathView>, i: int)
    requires
        0 <= i < paths.len(),
        paths[i].is_python(),
    ensures
        is_relevant(kind, paths) <==> kind == ChangeKind::Created || kind == ChangeKind::Modified
            || kind == ChangeKind::Removed,
        is_relevant(kind, paths) ==> is_relevant(kind, paths + seq![paths[i]]),
{
    assert((paths + seq![paths[i]])[i].is_python());
}

/// The clock shows hours, minutes and seconds, each in two places, whatever the day.
pub proof fn clocks_show_the_time_of_day(days: nat, hours: nat, minutes: nat, seconds: nat)
    requires
        hours < 24,
        minutes < 60,
        seconds < 60,
    ensures
        clock(days * 86400 + hours * 3600 + minutes * 60 + seconds) == "["@ + two_places(hours)
            + ":"@ + two_places(minutes) + ":"@ + two_places(seconds) + " UTC]"@,
        two_places(hours).len() == 2,
        two_places(minutes).len() == 2,
        two_places(seconds).len() == 2,
{
    let rest = hours * 3600 + minutes * 60 + seconds;
    assert((days * 86400 + rest) % 86400 == rest) by (nonlinear_arith)
        requires
            0 <= rest < 86400,
            days >= 0,
    ;
    assert(rest / 3600 % 24 == hours);
    assert(rest / 60 % 60 == minutes);
    assert(rest % 60 == seconds);
    reveal_strlit("0");
    lemma_two_places(hours);
    lemma_two_places(minutes);
    lemma_two_places(seconds);
}

proof fn lemma_two_places(n: nat)
    requires
        n < 100,
    ensures
        two_places(n).len() == 2,
{
    reveal_strlit("0");
    reveal_with_fuel(decimal, 3);
}

} // verus!
