use sysconfig::watch::{watch_step, WatchAction, WatchEvent};

#[test]
fn unchanged_file_waits() {
    assert_eq!(watch_step(Some(5), WatchEvent::Polled(Some(5))), (Some(5), WatchAction::Wait));
}

#[test]
fn changed_file_is_reloaded_and_recorded_on_success() {
    assert_eq!(watch_step(Some(5), WatchEvent::Polled(Some(9))), (Some(5), WatchAction::Reload(9)));
    assert_eq!(watch_step(Some(5), WatchEvent::Reloaded(9, true)), (Some(9), WatchAction::Wait));
    assert_eq!(watch_step(Some(9), WatchEvent::Polled(Some(9))), (Some(9), WatchAction::Wait));
}

#[test]
fn failed_reload_is_tried_again() {
    let (applied, _) = watch_step(Some(5), WatchEvent::Reloaded(9, false));
    assert_eq!(applied, Some(5));
    assert_eq!(watch_step(applied, WatchEvent::Polled(Some(9))), (Some(5), WatchAction::Reload(9)));
}

#[test]
fn unreadable_time_waits_and_unknown_start_reloads() {
    assert_eq!(watch_step(Some(5), WatchEvent::Polled(None)), (Some(5), WatchAction::Wait));
    assert_eq!(watch_step(None, WatchEvent::Polled(Some(1))), (None, WatchAction::Reload(1)));
}
