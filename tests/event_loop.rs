use sd::event::Event;
use sd::event_loop::{EventLoop, Step};
use std::path::PathBuf;

fn dispatched(step: Step) -> Option<PathBuf> {
    match step {
        Step::Dispatch(path) => Some(path),
        _ => None,
    }
}

#[test]
fn new_loop_is_running() {
    let lp = EventLoop::new();
    assert!(lp.is_running());
}

#[test]
fn screenshot_is_dispatched_with_its_path() {
    let mut lp = EventLoop::new();
    let step = lp.receive(Some(Event::NewScreenshot(PathBuf::from("/shots/a.png"))));
    assert_eq!(dispatched(step), Some(PathBuf::from("/shots/a.png")));
    assert!(lp.is_running());
}

#[test]
fn exit_stops_the_loop() {
    let mut lp = EventLoop::new();
    let step = lp.receive(Some(Event::Exit));
    assert!(matches!(step, Step::Stop));
    assert!(!lp.is_running());
}

#[test]
fn closed_channel_stops_the_loop() {
    let mut lp = EventLoop::new();
    let step = lp.receive(None);
    assert!(matches!(step, Step::Stop));
    assert!(!lp.is_running());
}

#[test]
fn nothing_is_dispatched_after_stop() {
    let mut lp = EventLoop::new();
    assert!(matches!(lp.receive(Some(Event::Exit)), Step::Stop));
    let step = lp.receive(Some(Event::NewScreenshot(PathBuf::from("/shots/late.png"))));
    assert!(matches!(step, Step::Idle));
    assert!(matches!(lp.receive(Some(Event::Exit)), Step::Idle));
    assert!(matches!(lp.receive(None), Step::Idle));
    assert!(!lp.is_running());
}

#[test]
fn events_before_exit_are_dispatched_in_order() {
    let mut lp = EventLoop::new();
    let queue = vec![
        Some(Event::NewScreenshot(PathBuf::from("/shots/1.png"))),
        Some(Event::NewScreenshot(PathBuf::from("/shots/2.png"))),
        Some(Event::Exit),
        Some(Event::NewScreenshot(PathBuf::from("/shots/3.png"))),
    ];
    let mut seen: Vec<PathBuf> = Vec::new();
    let mut stops = 0;
    for received in queue {
        match lp.receive(received) {
            Step::Dispatch(path) => seen.push(path),
            Step::Stop => stops += 1,
            Step::Idle => {}
        }
    }
    assert_eq!(seen, vec![PathBuf::from("/shots/1.png"), PathBuf::from("/shots/2.png")]);
    assert_eq!(stops, 1);
}

#[test]
fn failed_handler_does_not_block_next_event() {
    let mut lp = EventLoop::new();
    let missing = PathBuf::from("/nonexistent/dir/missing.png");
    let first = dispatched(lp.receive(Some(Event::NewScreenshot(missing.clone())))).unwrap();
    // the handler fails on a path that does not exist
    let outcome: Result<u64, String> = if first.exists() {
        Ok(0)
    } else {
        Err(format!("cannot read {:?}", first))
    };
    assert!(outcome.is_err());
    let second = lp.receive(Some(Event::NewScreenshot(PathBuf::from("/shots/next.png"))));
    assert_eq!(dispatched(second), Some(PathBuf::from("/shots/next.png")));
    assert!(lp.is_running());
}

#[test]
fn is_exit_tells_the_variants_apart() {
    assert!(Event::Exit.is_exit());
    assert!(!Event::NewScreenshot(PathBuf::from("/shots/a.png")).is_exit());
}
