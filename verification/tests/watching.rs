use rocs::routes::{check_docs_dir, internal_routes, reload_event, InternalRoute, ReloadSignal};
use rocs::watch::{watch_step, WatchAction, WatchEvent, WatchState, DEBOUNCE_MILLIS};

fn run(events: &[WatchEvent]) -> (WatchState, Vec<WatchAction>) {
    let mut state = WatchState::Idle;
    let mut actions = Vec::new();
    for e in events {
        let (s, a) = watch_step(state, *e);
        state = s;
        actions.push(a);
    }
    (state, actions)
}

#[test]
fn a_change_starts_the_quiet_period() {
    assert_eq!(watch_step(WatchState::Idle, WatchEvent::Changed), (WatchState::Debouncing, WatchAction::StartTimer));
    assert_eq!(DEBOUNCE_MILLIS, 200);
}

#[test]
fn further_changes_restart_it() {
    assert_eq!(
        watch_step(WatchState::Debouncing, WatchEvent::Changed),
        (WatchState::Debouncing, WatchAction::RestartTimer)
    );
}

#[test]
fn the_end_of_the_quiet_period_reloads_once() {
    let (state, actions) = run(&[
        WatchEvent::Changed,
        WatchEvent::Changed,
        WatchEvent::Accessed,
        WatchEvent::Changed,
        WatchEvent::QuietPeriodOver,
    ]);
    assert_eq!(state, WatchState::Idle);
    assert_eq!(actions.iter().filter(|a| **a == WatchAction::Reload).count(), 1);
    assert_eq!(*actions.last().unwrap(), WatchAction::Reload);
}

#[test]
fn accesses_are_ignored() {
    assert_eq!(watch_step(WatchState::Idle, WatchEvent::Accessed), (WatchState::Idle, WatchAction::Nothing));
    assert_eq!(
        watch_step(WatchState::Debouncing, WatchEvent::Accessed),
        (WatchState::Debouncing, WatchAction::Nothing)
    );
}

#[test]
fn errors_are_reported_and_change_nothing() {
    assert_eq!(watch_step(WatchState::Idle, WatchEvent::Failed), (WatchState::Idle, WatchAction::Warn));
    assert_eq!(watch_step(WatchState::Debouncing, WatchEvent::Failed), (WatchState::Debouncing, WatchAction::Warn));
}

#[test]
fn closing_stops_without_a_reload() {
    let (state, actions) = run(&[WatchEvent::Changed, WatchEvent::Closed, WatchEvent::QuietPeriodOver, WatchEvent::Changed]);
    assert_eq!(state, WatchState::Stopped);
    assert_eq!(actions, vec![WatchAction::StartTimer, WatchAction::Stop, WatchAction::Nothing, WatchAction::Nothing]);
    assert_eq!(watch_step(WatchState::Idle, WatchEvent::Closed), (WatchState::Stopped, WatchAction::Stop));
}

#[test]
fn reloads_never_outnumber_changes() {
    let events = [
        WatchEvent::QuietPeriodOver,
        WatchEvent::Changed,
        WatchEvent::QuietPeriodOver,
        WatchEvent::QuietPeriodOver,
        WatchEvent::Failed,
        WatchEvent::Changed,
        WatchEvent::QuietPeriodOver,
    ];
    let (_, actions) = run(&events);
    let reloads = actions.iter().filter(|a| **a == WatchAction::Reload).count();
    assert_eq!(reloads, 2);
}

#[test]
fn internal_routes_depend_on_watch_mode() {
    assert_eq!(
        internal_routes(false),
        vec![InternalRoute::Stylesheet, InternalRoute::ClipboardIcon, InternalRoute::CheckIcon, InternalRoute::Files]
    );
    assert_eq!(internal_routes(true).len(), 5);
    assert_eq!(internal_routes(true)[4], InternalRoute::Events);
    assert_eq!(InternalRoute::Stylesheet.path(), "/style.css");
    assert_eq!(InternalRoute::ClipboardIcon.path(), "/icons/clipboard.svg");
    assert_eq!(InternalRoute::CheckIcon.path(), "/icons/check.svg");
    assert_eq!(InternalRoute::Events.path(), "/events");
    assert_eq!(InternalRoute::Stylesheet.content_type(), Some("text/css; charset=utf-8"));
    assert_eq!(InternalRoute::CheckIcon.content_type(), Some("image/svg+xml"));
    assert_eq!(InternalRoute::Files.content_type(), None);
}

#[test]
fn reload_events() {
    let e = reload_event(ReloadSignal::Announced).unwrap();
    assert_eq!(e.name, "reload");
    assert_eq!(e.data, "change detected");
    assert!(reload_event(ReloadSignal::Lagged).is_some());
    assert!(reload_event(ReloadSignal::Closed).is_none());
}

#[test]
fn docs_folder_must_be_a_directory() {
    assert_eq!(check_docs_dir("/srv/docs", true), Ok(()));
    assert_eq!(check_docs_dir("/srv/README.md", false), Err("/srv/README.md is not a directory".to_string()));
}
