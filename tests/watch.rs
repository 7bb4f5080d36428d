use notify_debouncer_mini::{DebouncedEvent, DebouncedEventKind};
use sd::event::Event;
use sd::watch::translate;
use std::path::PathBuf;

fn record(path: &str, kind: DebouncedEventKind) -> DebouncedEvent {
    DebouncedEvent { path: PathBuf::from(path), kind }
}

fn paths(events: &[Event]) -> Vec<PathBuf> {
    events
        .iter()
        .map(|e| match e {
            Event::NewScreenshot(p) => p.clone(),
            Event::Exit => panic!("unexpected exit"),
        })
        .collect()
}

#[test]
fn settled_records_become_events_in_order() {
    let batch = Ok(vec![
        record("/shots/a.png", DebouncedEventKind::Any),
        record("/shots/b.png", DebouncedEventKind::Any),
        record("/shots/c.png", DebouncedEventKind::Any),
    ]);
    let report = translate(batch);
    assert_eq!(
        paths(&report.events),
        vec![PathBuf::from("/shots/a.png"), PathBuf::from("/shots/b.png"), PathBuf::from("/shots/c.png")]
    );
    assert!(report.errors.is_empty());
}

#[test]
fn continuous_records_give_no_event() {
    let batch = Ok(vec![
        record("/shots/big.png", DebouncedEventKind::AnyContinuous),
        record("/shots/a.png", DebouncedEventKind::Any),
    ]);
    let report = translate(batch);
    assert_eq!(paths(&report.events), vec![PathBuf::from("/shots/a.png")]);
    assert!(report.errors.is_empty());
}

#[test]
fn burst_on_one_path_gives_one_event() {
    let first = translate(Ok(vec![record("/shots/b.png", DebouncedEventKind::AnyContinuous)]));
    let second = translate(Ok(vec![record("/shots/b.png", DebouncedEventKind::Any)]));
    assert!(first.events.is_empty());
    assert_eq!(paths(&second.events), vec![PathBuf::from("/shots/b.png")]);
}

#[test]
fn empty_batch_gives_nothing() {
    let report = translate(Ok(vec![]));
    assert!(report.events.is_empty());
    assert!(report.errors.is_empty());
}

#[test]
fn error_batch_gives_errors_and_no_event() {
    let batch = Err(vec![notify::Error::generic("watch lost"), notify::Error::path_not_found()]);
    let report = translate(batch);
    assert!(report.events.is_empty());
    assert_eq!(report.errors.len(), 2);
    assert!(matches!(report.errors[0].kind, notify::ErrorKind::Generic(ref m) if m == "watch lost"));
    assert!(matches!(report.errors[1].kind, notify::ErrorKind::PathNotFound));
}
