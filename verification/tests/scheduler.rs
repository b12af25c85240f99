use singleschedule::index::ScheduleIndex;
use singleschedule::index::Skipped;
use singleschedule::scheduler::Action;
use singleschedule::scheduler::LoopState;
use singleschedule::scheduler::Scheduler;
use singleschedule::scheduler::Signal;
use singleschedule::scheduler::TICK_SECONDS;
use singleschedule::scheduler::next_marked;
use singleschedule::scheduler::record_runs;
use singleschedule::storage::Event;
use singleschedule::storage::Storage;
use singleschedule::time::Timestamp;

// 2023-11-14T22:13:20Z
const BASE: i64 = 1_700_000_000;

fn at(secs: i64) -> Timestamp {
    Timestamp::new(secs, 0).unwrap()
}

fn event(slug: &str, cron: &str, command: &str, last_run: Option<Timestamp>) -> Event {
    Event {
        slug: slug.to_string(),
        cron: cron.to_string(),
        command: command.to_string(),
        pid: None,
        created_at: at(BASE - 3600),
        last_run,
        active: true,
    }
}

fn places(skipped: &Vec<Skipped>) -> Vec<usize> {
    skipped.iter().map(|one| one.place).collect()
}

fn storage_of(events: Vec<Event>) -> Storage {
    Storage { events }
}

fn tick(now: Timestamp, reloaded: Option<Storage>) -> Signal {
    Signal::Tick { now, reloaded }
}

fn expect_run(action: Action, index: usize, slug: &str, command: &str) {
    match action {
        Action::Run { index: i, slug: s, command: c } => {
            assert_eq!(i, index);
            assert_eq!(s, slug);
            assert_eq!(c, command);
        }
        other => panic!("expected a run, got {:?}", other),
    }
}

#[test]
fn test_scheduler_initialization() {
    let scheduler = Scheduler::new();
    // Scheduler should initialize with empty state
    assert!(scheduler.storage().events.is_empty());
    assert_eq!(scheduler.state(), LoopState::Running);
    assert!(scheduler.skipped().is_empty());
}

#[test]
fn test_scheduler_load_events() {
    // Create storage with events
    let mut storage = Storage::new();
    storage.events.push(event("hourly-task", "0 * * * * *", "echo hourly", None));
    storage.events.push(event("daily-task", "0 0 * * * *", "echo daily", None));

    // Load events into scheduler
    let mut scheduler = Scheduler::new();
    scheduler.load_events(storage);

    // Verify events were loaded
    assert_eq!(scheduler.storage().events.len(), 2);
    assert!(scheduler.skipped().is_empty());
}

#[test]
fn test_invalid_cron_handling() {
    let mut storage = Storage::new();
    storage.events.push(event("invalid-cron", "invalid cron expression", "echo test", None));

    // Scheduler should handle invalid cron gracefully
    let mut scheduler = Scheduler::new();
    scheduler.load_events(storage);
    assert_eq!(places(scheduler.skipped()), vec![0]);
    assert!(!scheduler.skipped()[0].reason.detail.is_empty());
    // The task is never run
    assert!(matches!(scheduler.step(tick(at(BASE), None)), Action::Wait));
}

#[test]
fn tick_interval_is_ten_seconds() {
    assert_eq!(TICK_SECONDS, 10);
}

#[test]
fn index_holds_the_rules_that_parse() {
    let storage = storage_of(vec![
        event("a", "0 * * * * *", "echo a", None),
        event("b", "not a rule", "echo b", None),
        event("c", "*/5 * * * * *", "echo c", None),
    ]);
    let (index, skipped) = ScheduleIndex::build(&storage);
    assert_eq!(places(&skipped), vec![1]);
    assert_eq!(index.get("a").unwrap().expression(), "0 * * * * *");
    assert!(index.get("b").is_none());
    assert_eq!(index.get("c").unwrap().expression(), "*/5 * * * * *");
    assert!(index.get("d").is_none());
    assert!(ScheduleIndex::new().get("a").is_none());
}

#[test]
fn index_takes_the_last_rule_of_a_shared_slug() {
    let storage = storage_of(vec![
        event("a", "0 * * * * *", "one", None),
        event("a", "*/5 * * * * *", "two", None),
        event("a", "broken", "three", None),
    ]);
    let (index, skipped) = ScheduleIndex::build(&storage);
    assert_eq!(places(&skipped), vec![2]);
    assert_eq!(index.get("a").unwrap().expression(), "*/5 * * * * *");
}

#[test]
fn three_tasks_one_unparseable() {
    let storage = storage_of(vec![
        event("first", "* * * * * *", "echo first", None),
        event("broken", "every now and then", "echo broken", None),
        event("third", "0 * * * * *", "echo third", None),
    ]);
    let mut scheduler = Scheduler::new();
    let now = at(BASE);
    let action = scheduler.step(tick(now, Some(storage)));
    assert_eq!(places(scheduler.skipped()), vec![1]);
    expect_run(action, 0, "first", "echo first");
    expect_run(scheduler.step(Signal::Finished), 2, "third", "echo third");
    assert!(matches!(scheduler.step(Signal::Finished), Action::Persist));
    let events = &scheduler.storage().events;
    assert_eq!(events.len(), 3);
    assert_eq!(events[0].last_run, Some(now));
    assert_eq!(events[1].last_run, None);
    assert_eq!(events[2].last_run, Some(now));
    assert!(matches!(scheduler.step(Signal::Persisted), Action::Wait));
}

#[test]
fn tick_without_due_tasks_waits_and_writes_nothing() {
    let storage = storage_of(vec![event("hourly", "0 0 * * * *", "echo", Some(at(BASE)))]);
    let mut scheduler = Scheduler::new();
    assert!(matches!(scheduler.step(tick(at(BASE + 10), Some(storage))), Action::Wait));
    assert_eq!(scheduler.storage().events[0].last_run, Some(at(BASE)));
    // The next tick may come at once
    assert!(matches!(scheduler.step(tick(at(BASE + 20), None)), Action::Wait));
}

#[test]
fn inactive_tasks_are_passed_over() {
    let mut idle = event("idle", "* * * * * *", "echo idle", None);
    idle.active = false;
    let storage = storage_of(vec![idle, event("busy", "* * * * * *", "echo busy", None)]);
    let mut scheduler = Scheduler::new();
    let now = at(BASE);
    expect_run(scheduler.step(tick(now, Some(storage))), 1, "busy", "echo busy");
    assert!(matches!(scheduler.step(Signal::Finished), Action::Persist));
    assert_eq!(scheduler.storage().events[0].last_run, None);
    assert_eq!(scheduler.storage().events[1].last_run, Some(now));
}

#[test]
fn last_run_is_the_ticks_instant_and_the_task_does_not_fire_twice() {
    let storage =
        storage_of(vec![event("hourly", "0 0 * * * *", "echo", Some(at(BASE - 7200)))]);
    let mut scheduler = Scheduler::new();
    let now = Timestamp::new(BASE, 500).unwrap();
    expect_run(scheduler.step(tick(now, Some(storage))), 0, "hourly", "echo");
    assert!(matches!(scheduler.step(Signal::Finished), Action::Persist));
    assert_eq!(scheduler.storage().events[0].last_run, Some(now));
    assert!(matches!(scheduler.step(Signal::Persisted), Action::Wait));
    // Same instant, registry as left: nothing is due
    assert!(matches!(scheduler.step(tick(now, None)), Action::Wait));
}

#[test]
fn failed_reload_keeps_the_registry() {
    let storage = storage_of(vec![event("a", "0 0 * * * *", "echo a", Some(at(BASE)))]);
    let mut scheduler = Scheduler::new();
    scheduler.load_events(storage);
    assert!(matches!(scheduler.step(tick(at(BASE + 10), None)), Action::Wait));
    assert_eq!(scheduler.storage().events.len(), 1);
    // An hour later the stale registry still serves
    expect_run(scheduler.step(tick(at(BASE + 3600), None)), 0, "a", "echo a");
}

#[test]
fn reload_replaces_the_registry() {
    let mut scheduler = Scheduler::new();
    scheduler.load_events(storage_of(vec![event("old", "* * * * * *", "echo old", None)]));
    let fresh = storage_of(vec![event("new", "* * * * * *", "echo new", None)]);
    expect_run(scheduler.step(tick(at(BASE), Some(fresh))), 0, "new", "echo new");
    assert_eq!(scheduler.storage().events.len(), 1);
    assert_eq!(scheduler.storage().events[0].slug, "new");
}

#[test]
fn shutdown_between_ticks_exits() {
    let mut scheduler = Scheduler::new();
    assert!(matches!(scheduler.step(Signal::Shutdown), Action::Exit));
    assert_eq!(scheduler.state(), LoopState::ShuttingDown);
    // No tick is served after that
    let storage = storage_of(vec![event("a", "* * * * * *", "echo a", None)]);
    assert!(matches!(scheduler.step(tick(at(BASE), Some(storage))), Action::Exit));
    assert!(scheduler.storage().events.is_empty());
}

#[test]
fn shutdown_within_a_tick_lets_the_tick_finish() {
    let storage = storage_of(vec![
        event("a", "* * * * * *", "echo a", None),
        event("b", "* * * * * *", "echo b", None),
    ]);
    let mut scheduler = Scheduler::new();
    let now = at(BASE);
    expect_run(scheduler.step(tick(now, Some(storage))), 0, "a", "echo a");
    assert!(matches!(scheduler.step(Signal::Shutdown), Action::Continue));
    assert_eq!(scheduler.state(), LoopState::ShuttingDown);
    expect_run(scheduler.step(Signal::Finished), 1, "b", "echo b");
    assert!(matches!(scheduler.step(Signal::Finished), Action::Persist));
    assert_eq!(scheduler.storage().events[0].last_run, Some(now));
    assert_eq!(scheduler.storage().events[1].last_run, Some(now));
    assert!(matches!(scheduler.step(Signal::Persisted), Action::Exit));
}

#[test]
fn signals_out_of_turn_change_nothing() {
    let mut scheduler = Scheduler::new();
    assert!(matches!(scheduler.step(Signal::Finished), Action::Continue));
    assert!(matches!(scheduler.step(Signal::Persisted), Action::Continue));
    let storage = storage_of(vec![event("a", "* * * * * *", "echo a", None)]);
    expect_run(scheduler.step(tick(at(BASE), Some(storage))), 0, "a", "echo a");
    // A tick within a tick is not served
    assert!(matches!(scheduler.step(tick(at(BASE + 10), Some(Storage::new()))), Action::Continue));
    assert_eq!(scheduler.storage().events.len(), 1);
    assert!(matches!(scheduler.step(Signal::Persisted), Action::Continue));
    assert!(matches!(scheduler.step(Signal::Finished), Action::Persist));
    assert!(matches!(scheduler.step(Signal::Finished), Action::Continue));
    assert_eq!(scheduler.storage().events[0].last_run, Some(at(BASE)));
    assert!(matches!(scheduler.step(Signal::Persisted), Action::Wait));
    assert_eq!(scheduler.state(), LoopState::Running);
}

#[test]
fn load_events_gives_up_a_tick_under_way() {
    let storage = storage_of(vec![event("a", "* * * * * *", "echo a", None)]);
    let mut scheduler = Scheduler::new();
    expect_run(scheduler.step(tick(at(BASE), Some(storage))), 0, "a", "echo a");
    scheduler.load_events(Storage::new());
    assert!(matches!(scheduler.step(Signal::Finished), Action::Continue));
    assert!(matches!(scheduler.step(tick(at(BASE), None)), Action::Wait));
}

#[test]
fn next_marked_finds_the_first_mark() {
    let marks = vec![false, true, false, true];
    assert_eq!(next_marked(&marks, 0), Some(1));
    assert_eq!(next_marked(&marks, 1), Some(1));
    assert_eq!(next_marked(&marks, 2), Some(3));
    assert_eq!(next_marked(&marks, 4), None);
    assert_eq!(next_marked(&marks, 9), None);
    assert_eq!(next_marked(&vec![], 0), None);
    assert_eq!(next_marked(&vec![false, false], 0), None);
}

#[test]
fn record_runs_sets_the_last_run_of_marked_tasks() {
    let earlier = Some(at(BASE - 60));
    let mut storage = storage_of(vec![
        event("a", "* * * * * *", "echo a", None),
        event("b", "* * * * * *", "echo b", earlier),
        event("c", "* * * * * *", "echo c", earlier),
    ]);
    record_runs(&mut storage, &vec![true, false, true], at(BASE));
    assert_eq!(storage.events[0].last_run, Some(at(BASE)));
    assert_eq!(storage.events[1].last_run, earlier);
    assert_eq!(storage.events[2].last_run, Some(at(BASE)));
    assert_eq!(storage.events[2].slug, "c");
    // Marks beyond the registry, or a registry beyond the marks
    record_runs(&mut storage, &vec![false, true, false, true, true], at(BASE + 1));
    assert_eq!(storage.events[1].last_run, Some(at(BASE + 1)));
    record_runs(&mut storage, &vec![true], at(BASE + 2));
    assert_eq!(storage.events[0].last_run, Some(at(BASE + 2)));
    assert_eq!(storage.events[1].last_run, Some(at(BASE + 1)));
    assert_eq!(storage.events[2].last_run, Some(at(BASE)));
}

#[test]
fn tick_does_not_move_a_last_run_back() {
    // The clock was set back, or the file edited: the last run lies five
    // seconds after the tick. With an occurrence every second the task is due.
    let now = at(BASE);
    let ahead = at(BASE + 5);
    let storage = storage_of(vec![
        event("ahead", "* * * * * *", "echo ahead", Some(ahead)),
        event("behind", "* * * * * *", "echo behind", Some(at(BASE - 5))),
        event("never", "* * * * * *", "echo never", None),
    ]);
    let mut scheduler = Scheduler::new();
    expect_run(scheduler.step(tick(now, Some(storage))), 0, "ahead", "echo ahead");
    expect_run(scheduler.step(Signal::Finished), 1, "behind", "echo behind");
    expect_run(scheduler.step(Signal::Finished), 2, "never", "echo never");
    assert!(matches!(scheduler.step(Signal::Finished), Action::Persist));
    let events = &scheduler.storage().events;
    assert_eq!(events[0].last_run, Some(ahead));
    assert_eq!(events[1].last_run, Some(now));
    assert_eq!(events[2].last_run, Some(now));
    assert!(matches!(scheduler.step(Signal::Persisted), Action::Wait));
    // Ten seconds on the tick has passed the last run and takes its place
    let later = at(BASE + 10);
    expect_run(scheduler.step(tick(later, None)), 0, "ahead", "echo ahead");
    expect_run(scheduler.step(Signal::Finished), 1, "behind", "echo behind");
    expect_run(scheduler.step(Signal::Finished), 2, "never", "echo never");
    assert!(matches!(scheduler.step(Signal::Finished), Action::Persist));
    assert_eq!(scheduler.storage().events[0].last_run, Some(later));
    assert_eq!(scheduler.storage().events[1].last_run, Some(later));
}

#[test]
fn record_runs_keeps_a_later_last_run() {
    let now = at(BASE);
    let ahead = Timestamp::new(BASE, 1).unwrap();
    let mut storage = storage_of(vec![
        event("a", "* * * * * *", "echo a", Some(ahead)),
        event("b", "* * * * * *", "echo b", Some(now)),
        event("c", "* * * * * *", "echo c", Some(at(BASE + 3600))),
        event("d", "* * * * * *", "echo d", Some(at(BASE + 3600))),
    ]);
    record_runs(&mut storage, &vec![true, true, true, false], now);
    assert_eq!(storage.events[0].last_run, Some(ahead));
    assert_eq!(storage.events[1].last_run, Some(now));
    assert_eq!(storage.events[2].last_run, Some(at(BASE + 3600)));
    assert_eq!(storage.events[3].last_run, Some(at(BASE + 3600)));
}
