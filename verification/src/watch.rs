//! When a change in the documentation folder is announced to the browsers.
//!
//! File-system events arrive one by one. A change (any event but a mere
//! access) starts a quiet period of [`DEBOUNCE_MILLIS`]; each further change
//! restarts it; when it runs out, one reload is announced. Errors are reported
//! and otherwise ignored; when the event stream ends, watching stops.

use vstd::prelude::*;

verus! {

/// Length of the quiet period, in milliseconds.
pub const DEBOUNCE_MILLIS: u64 = 200;

/// Where the watcher stands.
#[derive(PartialEq, Eq, Structural, Clone, Copy, Debug)]
pub enum WatchState {
    /// Waiting for a change.
    Idle,
    /// A change was seen; waiting for the quiet period to run out.
    Debouncing,
    /// The event stream has ended.
    Stopped,
}

/// What happened.
#[derive(PartialEq, Eq, Structural, Clone, Copy, Debug)]
pub enum WatchEvent {
    /// A file-system event other than an access.
    Changed,
    /// A file was only accessed.
    Accessed,
    /// The file-system watcher reported an error.
    Failed,
    /// The quiet period ran out.
    QuietPeriodOver,
    /// The event stream ended.
    Closed,
}

/// What the loop around the watcher does next.
#[derive(PartialEq, Eq, Structural, Clone, Copy, Debug)]
pub enum WatchAction {
    /// Nothing.
    Nothing,
    /// Start the quiet period.
    StartTimer,
    /// Start the quiet period afresh.
    RestartTimer,
    /// Report the watcher's error.
    Warn,
    /// Tell the browsers to reload.
    Reload,
    /// Stop watching.
    Stop,
}

/// One step of the watcher.
pub open spec fn next(state: WatchState, event: WatchEvent) -> (WatchState, WatchAction) {
    match state {
        WatchState::Stopped => (WatchState::Stopped, WatchAction::Nothing),
        WatchState::Idle => match event {
            WatchEvent::Changed => (WatchState::Debouncing, WatchAction::StartTimer),
            WatchEvent::Accessed => (WatchState::Idle, WatchAction::Nothing),
            WatchEvent::Failed => (WatchState::Idle, WatchAction::Warn),
            WatchEvent::QuietPeriodOver => (WatchState::Idle, WatchAction::Nothing),
            WatchEvent::Closed => (WatchState::Stopped, WatchAction::Stop),
        },
        WatchState::Debouncing => match event {
            WatchEvent::Changed => (WatchState::Debouncing, WatchAction::RestartTimer),
            WatchEvent::Accessed => (WatchState::Debouncing, WatchAction::Nothing),
            WatchEvent::Failed => (WatchState::Debouncing, WatchAction::Warn),
            WatchEvent::QuietPeriodOver => (WatchState::Idle, WatchAction::Reload),
            WatchEvent::Closed => (WatchState::Stopped, WatchAction::Stop),
        },
    }
}

/// The next state and action of the watcher.
pub fn watch_step(state: WatchState, event: WatchEvent) -> (r: (WatchState, WatchAction))
    ensures
        r == next(state, event),
{
    match state {
        WatchState::Stopped => (WatchState::Stopped, WatchAction::Nothing),
        WatchState::Idle => match event {
            WatchEvent::Changed => (WatchState::Debouncing, WatchAction::StartTimer),
            WatchEvent::Accessed => (WatchState::Idle, WatchAction::Nothing),
            WatchEvent::Failed => (WatchState::Idle, WatchAction::Warn),
            WatchEvent::QuietPeriodOver => (WatchState::Idle, WatchAction::Nothing),
            WatchEvent::Closed => (WatchState::Stopped, WatchAction::Stop),
        },
        WatchState::Debouncing => match event {
            WatchEvent::Changed => (WatchState::Debouncing, WatchAction::RestartTimer),
            WatchEvent::Accessed => (WatchState::Debouncing, WatchAction::Nothing),
            WatchEvent::Failed => (WatchState::Debouncing, WatchAction::Warn),
            WatchEvent::QuietPeriodOver => (WatchState::Idle, WatchAction::Reload),
            WatchEvent::Closed => (WatchState::Stopped, WatchAction::Stop),
        },
    }
}

/// The state reached and the actions taken over a run of events.
pub open spec fn watch_run(state: WatchState, events: Seq<WatchEvent>) -> (WatchState, Seq<WatchAction>)
    decreases events.len(),
{
    if events.len() == 0 {
        (state, Seq::empty())
    } else {
        let (s, acts) = watch_run(state, events.drop_last());
        let (t, a) = next(s, events.last());
        (t, acts.push(a))
    }
}

/// How many times `x` occurs in `s`.
pub open spec fn count_of<A>(s: Seq<A>, x: A) -> nat
    decreases s.len(),
{
    if s.len() == 0 {
        0
    } else {
        count_of(s.drop_last(), x) + if s.last() == x {
            1nat
        } else {
            0nat
        }
    }
}

proof fn lemma_count_push<A>(s: Seq<A>, a: A, x: A)
    ensures
        count_of(s.push(a), x) == count_of(s, x) + if a == x {
            1nat
        } else {
            0nat
        },
{
    assert(s.push(a).drop_last() =~= s);
}

proof fn lemma_run_last(state: WatchState, events: Seq<WatchEvent>)
    requires
        events.len() > 0,
    ensures
        ({
            let (s, acts) = watch_run(state, events.drop_last());
            let (t, a) = next(s, events.last());
            &&& watch_run(state, events).0 == t
            &&& count_of(watch_run(state, events).1, WatchAction::Reload) == count_of(acts, WatchAction::Reload)
                + if a == WatchAction::Reload {
                1nat
            } else {
                0nat
            }
        }),
{
    let (s, acts) = watch_run(state, events.drop_last());
    let (t, a) = next(s, events.last());
    lemma_count_push(acts, a, WatchAction::Reload);
}

/// Mere accesses and watcher errors neither start nor end a quiet period.
pub proof fn lemma_access_and_errors_keep_state(state: WatchState)
    ensures
        next(state, WatchEvent::Accessed) == (state, WatchAction::Nothing),
        next(state, WatchEvent::Failed).0 == state,
{
}

/// Once the stream has ended, nothing more happens.
pub proof fn lemma_stopped_is_final(events: Seq<WatchEvent>)
    ensures
        watch_run(WatchState::Stopped, events).0 == WatchState::Stopped,
        count_of(watch_run(WatchState::Stopped, events).1, WatchAction::Reload) == 0,
    decreases events.len(),
{
    if events.len() > 0 {
        lemma_stopped_is_final(events.drop_last());
        lemma_run_last(WatchState::Stopped, events);
    }
}

/// Never more reloads than changes: each reload ends a quiet period that a
/// change started, and a burst of changes starts only one.
pub proof fn lemma_reloads_at_most_changes(events: Seq<WatchEvent>)
    ensures
        count_of(watch_run(WatchState::Idle, events).1, WatchAction::Reload) + (if watch_run(
            WatchState::Idle,
            events,
        ).0 == WatchState::Debouncing {
            1nat
        } else {
            0nat
        }) <= count_of(events, WatchEvent::Changed),
    decreases events.len(),
{
    if events.len() > 0 {
        lemma_reloads_at_most_changes(events.drop_last());
        lemma_run_last(WatchState::Idle, events);
        lemma_count_push(events.drop_last(), events.last(), WatchEvent::Changed);
        assert(events.drop_last().push(events.last()) =~= events);
    }
}

/// A burst of changes followed by the end of the quiet period gives exactly
/// one reload, and the watcher is idle again.
pub proof fn lemma_burst_reloads_once(n: nat)
    requires
        n > 0,
    ensures
        ({
            let events = Seq::new(n, |i: int| WatchEvent::Changed).push(WatchEvent::QuietPeriodOver);
            let (s, acts) = watch_run(WatchState::Idle, events);
            s == WatchState::Idle && count_of(acts, WatchAction::Reload) == 1
        }),
{
    let burst = Seq::new(n, |i: int| WatchEvent::Changed);
    lemma_burst_debounces(n);
    let events = burst.push(WatchEvent::QuietPeriodOver);
    assert(events.drop_last() =~= burst);
    lemma_run_last(WatchState::Idle, events);
}

proof fn lemma_burst_debounces(n: nat)
    requires
        n > 0,
    ensures
        watch_run(WatchState::Idle, Seq::new(n, |i: int| WatchEvent::Changed)).0 == WatchState::Debouncing,
        count_of(watch_run(WatchState::Idle, Seq::new(n, |i: int| WatchEvent::Changed)).1, WatchAction::Reload) == 0,
    decreases n,
{
    let burst = Seq::new(n, |i: int| WatchEvent::Changed);
    assert(burst.drop_last() =~= Seq::new((n - 1) as nat, |i: int| WatchEvent::Changed));
    if n > 1 {
        lemma_burst_debounces((n - 1) as nat);
    } else {
        assert(burst.drop_last() =~= Seq::<WatchEvent>::empty());
    }
    lemma_run_last(WatchState::Idle, burst);
}

} // verus!
