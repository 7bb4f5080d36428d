//! Translation of the debouncer's batches into events for the loop.
//!
//! The debouncer hands over either a batch of change records or a batch of
//! error records. Each change record becomes at most one event: a record whose
//! path has been quiet for the whole debounce window becomes one
//! `NewScreenshot`, while a record that only reports a path still being
//! written becomes none, so that each file is announced once, when it settles.
//! Error records produce no event; they are handed back to be reported.

use crate::event::Event;
use notify::Error as NotifyError;
use notify_debouncer_mini::{DebounceEventResult, DebouncedEvent, DebouncedEventKind};
use vstd::prelude::*;

verus! {

/// Relies on notify_debouncer_mini::DebouncedEvent: a record with two public
/// fields, the path it is about and its kind, read directly here.
#[verifier::external_type_specification]
pub struct ExDebouncedEvent(DebouncedEvent);

/// Relies on notify_debouncer_mini::DebouncedEventKind: `Any` for a path that
/// has been quiet for the whole timeout, `AnyContinuous` for one still being
/// changed after it. The enum is marked non-exhaustive, so other kinds are
/// treated like `AnyContinuous`.
#[verifier::external_type_specification]
pub struct ExDebouncedEventKind(DebouncedEventKind);

/// Relies on notify::Error only as an opaque value, carried through to be
/// reported.
#[verifier::external_type_specification]
#[verifier::external_body]
pub struct ExNotifyError(NotifyError);

/// A record that marks the end of activity on its path.
pub open spec fn is_settled(record: DebouncedEvent) -> bool {
    record.kind is Any
}

/// The events owed for a batch of change records, in the batch's order.
pub open spec fn screenshot_events(records: Seq<DebouncedEvent>) -> Seq<Event>
    decreases records.len(),
{
    if records.len() == 0 {
        Seq::empty()
    } else {
        let rest = screenshot_events(records.drop_last());
        if is_settled(records.last()) {
            rest.push(Event::NewScreenshot(records.last().path))
        } else {
            rest
        }
    }
}

/// What one batch from the debouncer gives: events to send to the loop and
/// errors to report.
pub struct WatchReport {
    pub events: Vec<Event>,
    pub errors: Vec<NotifyError>,
}

/// Maps one batch from the debouncer to the events and errors it stands for.
pub fn translate(batch: DebounceEventResult) -> (r: WatchReport)
    ensures
        match batch {
            Ok(records) => r.events@ == screenshot_events(records@) && r.errors@.len() == 0,
            Err(errors) => r.events@.len() == 0 && r.errors@ == errors@,
        },
{
    match batch {
        Ok(records) => {
            let ghost all = records@;
            let mut events: Vec<Event> = Vec::new();
            for record in it: records
                invariant
                    it.seq() == all,
                    events@ == screenshot_events(all.take(it.index() as int)),
            {
                proof {
                    assert(all.take(it.index() + 1).drop_last() == all.take(it.index() as int));
                }
                match record.kind {
                    DebouncedEventKind::Any => events.push(Event::NewScreenshot(record.path)),
                    _ => {},
                }
            }
            proof {
                assert(all.take(all.len() as int) == all);
            }
            WatchReport { events, errors: Vec::new() }
        },
        Err(errors) => WatchReport { events: Vec::new(), errors },
    }
}

/// How many records of a batch are settled records for `path`.
pub open spec fn settled_count(records: Seq<DebouncedEvent>, path: std::path::PathBuf) -> nat
    decreases records.len(),
{
    if records.len() == 0 {
        0
    } else {
        settled_count(records.drop_last(), path) + if is_settled(records.last())
            && records.last().path == path {
            1nat
        } else {
            0nat
        }
    }
}

/// How many `NewScreenshot` events for `path` a sequence of events holds.
pub open spec fn event_count(events: Seq<Event>, path: std::path::PathBuf) -> nat
    decreases events.len(),
{
    if events.len() == 0 {
        0
    } else {
        event_count(events.drop_last(), path) + if events.last() == Event::NewScreenshot(path) {
            1nat
        } else {
            0nat
        }
    }
}

/// A batch gives each path as many events as it holds settled records for
/// it: records that report a path still being written give none.
pub proof fn lemma_events_per_path(records: Seq<DebouncedEvent>, path: std::path::PathBuf)
    ensures
        event_count(screenshot_events(records), path) == settled_count(records, path),
    decreases records.len(),
{
    if records.len() > 0 {
        lemma_events_per_path(records.drop_last(), path);
        let rest = screenshot_events(records.drop_last());
        if is_settled(records.last()) {
            assert(rest.push(Event::NewScreenshot(records.last().path)).drop_last() == rest);
        }
    }
}

/// A batch of settled records gives one event per record, in order, each
/// for that record's path.
pub proof fn lemma_settled_batch(records: Seq<DebouncedEvent>)
    requires
        forall|i: int| 0 <= i < records.len() ==> is_settled(#[trigger] records[i]),
    ensures
        screenshot_events(records).len() == records.len(),
        forall|i: int|
            0 <= i < records.len() ==> screenshot_events(records)[i] == Event::NewScreenshot(
                #[trigger] records[i].path,
            ),
    decreases records.len(),
{
    if records.len() > 0 {
        let init = records.drop_last();
        assert forall|i: int| 0 <= i < init.len() implies is_settled(#[trigger] init[i]) by {
            assert(init[i] == records[i]);
        }
        lemma_settled_batch(init);
        assert(is_settled(records[records.len() - 1]));
        assert forall|i: int| 0 <= i < records.len() implies screenshot_events(records)[i]
            == Event::NewScreenshot(#[trigger] records[i].path) by {
            if i < init.len() {
                assert(init[i] == records[i]);
            }
        }
    }
}

/// Settled records for distinct paths give exactly one event per path.
pub proof fn lemma_distinct_paths_once(records: Seq<DebouncedEvent>)
    requires
        forall|i: int| 0 <= i < records.len() ==> is_settled(#[trigger] records[i]),
        forall|i: int, j: int|
            0 <= i < j < records.len() ==> (#[trigger] records[i]).path != (#[trigger] records[j]).path,
    ensures
        screenshot_events(records).len() == records.len(),
        forall|i: int|
            0 <= i < records.len() ==> event_count(screenshot_events(records), (#[trigger] records[i]).path) == 1,
{
    lemma_settled_batch(records);
    assert forall|i: int| 0 <= i < records.len() implies event_count(
        screenshot_events(records),
        (#[trigger] records[i]).path,
    ) == 1 by {
        lemma_events_per_path(records, records[i].path);
        lemma_settled_count_one(records, i);
    }
}

proof fn lemma_settled_count_one(records: Seq<DebouncedEvent>, k: int)
    requires
        0 <= k < records.len(),
        forall|i: int| 0 <= i < records.len() ==> is_settled(#[trigger] records[i]),
        forall|i: int, j: int|
            0 <= i < j < records.len() ==> (#[trigger] records[i]).path != (#[trigger] records[j]).path,
    ensures
        settled_count(records, records[k].path) == 1,
    decreases records.len(),
{
    let init = records.drop_last();
    let last = records.len() - 1;
    if k == last {
        lemma_settled_count_none(init, records[k].path, records);
    } else {
        assert(records[k] == init[k]);
        assert forall|i: int| 0 <= i < init.len() implies is_settled(#[trigger] init[i]) by {
            assert(init[i] == records[i]);
        }
        assert forall|i: int, j: int| 0 <= i < j < init.len() implies (#[trigger] init[i]).path
            != (#[trigger] init[j]).path by {
            assert(init[i] == records[i] && init[j] == records[j]);
        }
        lemma_settled_count_one(init, k);
        assert(records[k].path != records[last].path);
    }
}

proof fn lemma_settled_count_none(
    prefix: Seq<DebouncedEvent>,
    path: std::path::PathBuf,
    records: Seq<DebouncedEvent>,
)
    requires
        prefix.len() < records.len(),
        prefix == records.take(prefix.len() as int),
        path == records[records.len() - 1].path,
        forall|i: int, j: int|
            0 <= i < j < records.len() ==> (#[trigger] records[i]).path != (#[trigger] records[j]).path,
    ensures
        settled_count(prefix, path) == 0,
    decreases prefix.len(),
{
    if prefix.len() > 0 {
        let n = prefix.len() as int;
        assert(prefix.drop_last() == records.take(n - 1));
        lemma_settled_count_none(prefix.drop_last(), path, records);
        assert(prefix.last() == records[n - 1]);
    }
}

} // verus!
