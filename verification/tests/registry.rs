use singleschedule::cli::CliError;
use singleschedule::cli::DaemonRequest;
use singleschedule::cli::can_be_listed;
use singleschedule::cli::handle_add;
use singleschedule::cli::handle_list;
use singleschedule::cli::handle_remove;
use singleschedule::cli::handle_start;
use singleschedule::cli::handle_stop;
use singleschedule::cli::row;
use singleschedule::cli::register;
use singleschedule::rule::Rule;
use singleschedule::storage::Event;
use singleschedule::storage::Storage;
use singleschedule::time::Timestamp;

fn now() -> Timestamp {
    Timestamp::new(1_700_000_000, 0).unwrap()
}

fn words(parts: &[&str]) -> Vec<String> {
    parts.iter().map(|part| part.to_string()).collect()
}

fn event(slug: &str, cron: &str, command: &str) -> Event {
    Event {
        slug: slug.to_string(),
        cron: cron.to_string(),
        command: command.to_string(),
        pid: None,
        created_at: now(),
        last_run: None,
        active: true,
    }
}

fn fields(storage: &Storage) -> Vec<(String, String, String, bool, Option<Timestamp>)> {
    storage
        .events
        .iter()
        .map(|e| (e.slug.clone(), e.cron.clone(), e.command.clone(), e.active, e.last_run))
        .collect()
}

#[test]
fn test_storage_new() {
    let storage = Storage::new();
    assert!(storage.events.is_empty());
}

#[test]
fn default_storage_is_empty() {
    let storage = Storage::default();
    assert!(storage.events.is_empty());
}

#[test]
fn clone_keeps_every_field() {
    let mut storage = Storage::new();
    let mut first = event("a", "0 * * * * *", "echo a");
    first.pid = Some(7);
    first.last_run = Some(Timestamp::new(5, 6).unwrap());
    first.active = false;
    storage.events.push(first);
    storage.events.push(event("b", "* * * * * *", "echo b"));
    let copy = storage.clone();
    assert_eq!(fields(&copy), fields(&storage));
    assert_eq!(copy.events[0].pid, Some(7));
    assert_eq!(copy.events[0].created_at, now());
    assert_eq!(copy.events.len(), 2);
}

#[test]
fn position_finds_the_first_task_with_the_slug() {
    let mut storage = Storage::new();
    storage.events.push(event("a", "0 * * * * *", "echo a"));
    storage.events.push(event("b", "0 * * * * *", "echo b"));
    storage.events.push(event("b", "0 * * * * *", "echo b again"));
    assert_eq!(storage.position("a"), Some(0));
    assert_eq!(storage.position("b"), Some(1));
    assert_eq!(storage.position("c"), None);
    assert_eq!(storage.position(""), None);
}

#[test]
fn add_registers_an_active_task_that_never_ran() {
    let mut storage = Storage::new();
    handle_add(
        &mut storage,
        "backup".to_string(),
        "0 0 * * * *".to_string(),
        words(&["tar", "-czf", "/tmp/x.tgz", "/home"]),
        now(),
    )
    .unwrap();
    assert_eq!(storage.events.len(), 1);
    let added = &storage.events[0];
    assert_eq!(added.slug, "backup");
    assert_eq!(added.cron, "0 0 * * * *");
    assert_eq!(added.command, "tar -czf /tmp/x.tgz /home");
    assert_eq!(added.pid, None);
    assert_eq!(added.created_at, now());
    assert_eq!(added.last_run, None);
    assert!(added.active);
}

#[test]
fn add_without_a_word_to_run_is_refused() {
    let mut storage = Storage::new();
    for command in [words(&[]), words(&[""]), words(&[" ", "\t"])] {
        let result =
            handle_add(&mut storage, "x".to_string(), "0 0 * * * *".to_string(), command, now());
        assert!(matches!(result, Err(CliError::EmptyCommand)));
        assert!(storage.events.is_empty());
    }
    assert_eq!(CliError::EmptyCommand.message(), "Empty command");
    // A taken slug is reported before an empty command
    storage.events.push(event("x", "0 * * * * *", "echo"));
    let result =
        handle_add(&mut storage, "x".to_string(), "0 0 * * * *".to_string(), vec![], now());
    assert!(matches!(result, Err(CliError::DuplicateSlug(_))));
}

#[test]
fn test_add_duplicate_slug() {
    let mut storage = Storage::new();
    storage.events.push(event("duplicate", "0 * * * * *", "echo test"));

    // Try to add with same slug
    let before = fields(&storage);
    let result = handle_add(
        &mut storage,
        "duplicate".to_string(),
        "0 * * * * *".to_string(),
        vec!["echo".to_string(), "test2".to_string()],
        now(),
    );

    assert!(result.is_err());
    let err_msg = result.unwrap_err().message();
    assert!(
        err_msg.contains("already exists") || err_msg.contains("Invalid cron"),
        "Unexpected error: {}",
        err_msg
    );
    assert_eq!(err_msg, "Task with slug 'duplicate' already exists");
    assert_eq!(fields(&storage), before);
}

#[test]
fn invalid_cron_is_reported_before_a_taken_slug() {
    let mut storage = Storage::new();
    storage.events.push(event("taken", "0 * * * * *", "echo test"));
    let result = handle_add(
        &mut storage,
        "taken".to_string(),
        "nonsense".to_string(),
        words(&["echo"]),
        now(),
    );
    assert!(matches!(result, Err(CliError::InvalidCron(_))));
    assert_eq!(storage.events.len(), 1);
}

#[test]
fn test_remove_nonexistent() {
    let mut storage = Storage::new();
    let result = handle_remove(&mut storage, "nonexistent".to_string());
    assert!(result.is_err());
    assert!(result.unwrap_err().message().contains("not found"));
}

#[test]
fn remove_nonexistent_leaves_the_registry_unchanged() {
    let mut storage = Storage::new();
    storage.events.push(event("a", "0 * * * * *", "echo a"));
    storage.events.push(event("b", "0 * * * * *", "echo b"));
    let before = fields(&storage);
    let result = handle_remove(&mut storage, "c".to_string());
    match result {
        Err(CliError::NotFound(slug)) => assert_eq!(slug, "c"),
        other => panic!("unexpected: {:?}", other),
    }
    assert_eq!(fields(&storage), before);
    assert_eq!(
        handle_remove(&mut storage, "zzz".to_string()).unwrap_err().message(),
        "Task with slug 'zzz' not found"
    );
}

#[test]
fn remove_takes_every_task_with_the_slug_and_keeps_the_order() {
    let mut storage = Storage::new();
    storage.events.push(event("a", "0 * * * * *", "one"));
    storage.events.push(event("b", "0 * * * * *", "two"));
    storage.events.push(event("a", "0 * * * * *", "three"));
    storage.events.push(event("c", "0 * * * * *", "four"));
    handle_remove(&mut storage, "a".to_string()).unwrap();
    let left: Vec<&str> = storage.events.iter().map(|e| e.command.as_str()).collect();
    assert_eq!(left, vec!["two", "four"]);
}

#[test]
fn test_cron_validation() {
    let mut storage = Storage::new();
    let result = handle_add(
        &mut storage,
        "invalid-cron".to_string(),
        "invalid cron expression".to_string(),
        vec!["echo".to_string(), "test".to_string()],
        now(),
    );

    assert!(result.is_err());
    assert!(result.unwrap_err().message().contains("Invalid cron expression"));
    assert!(storage.events.is_empty());
}

#[test]
fn test_end_to_end_workflow() {
    let mut storage = Storage::new();

    // Add a task
    handle_add(
        &mut storage,
        "test-task".to_string(),
        "* * * * * *".to_string(),
        vec!["echo".to_string(), "hello world".to_string()],
        now(),
    )
    .unwrap();

    // Verify it was added
    assert_eq!(storage.events.len(), 1);
    assert_eq!(storage.events[0].slug, "test-task");

    // List tasks
    let lines = handle_list(&storage);
    assert_eq!(lines.len(), 3);

    // Remove the task
    handle_remove(&mut storage, "test-task".to_string()).unwrap();

    // Verify it was removed
    assert_eq!(storage.events.len(), 0);
}

#[test]
fn test_multiple_tasks() {
    let mut storage = Storage::new();

    // Add multiple tasks
    for i in 1..=5 {
        handle_add(
            &mut storage,
            format!("task-{}", i),
            "0 * * * * *".to_string(),
            vec!["echo".to_string(), format!("task {}", i)],
            now(),
        )
        .unwrap();
    }

    // Verify all were added
    assert_eq!(storage.events.len(), 5);

    // Remove specific task
    handle_remove(&mut storage, "task-3".to_string()).unwrap();

    assert_eq!(storage.events.len(), 4);
    assert!(!storage.events.iter().any(|e| e.slug == "task-3"));
}

#[test]
fn test_complex_commands() {
    let mut storage = Storage::new();

    // Test command with multiple arguments and flags
    handle_add(
        &mut storage,
        "complex-command".to_string(),
        "*/30 * * * * *".to_string(),
        vec![
            "curl".to_string(),
            "-X".to_string(),
            "POST".to_string(),
            "-H".to_string(),
            "Content-Type: application/json".to_string(),
            "-d".to_string(),
            "{\"status\": \"ok\"}".to_string(),
            "http://example.com/webhook".to_string(),
        ],
        now(),
    )
    .unwrap();

    assert_eq!(storage.events.len(), 1);
    assert!(storage.events[0].command.contains("curl"));
    assert!(storage.events[0].command.contains("POST"));
    assert!(storage.events[0].command.contains("example.com"));
    assert_eq!(
        storage.events[0].command,
        "curl -X POST -H Content-Type: application/json -d {\"status\": \"ok\"} http://example.com/webhook"
    );
}

#[test]
fn test_selective_start_stop() {
    let mut storage = Storage::new();

    // Add multiple tasks
    for i in 1..=3 {
        handle_add(
            &mut storage,
            format!("task-{}", i),
            "0 * * * * *".to_string(),
            vec!["echo".to_string(), format!("task {}", i)],
            now(),
        )
        .unwrap();
    }

    // All tasks should be active initially
    assert_eq!(storage.events.len(), 3);
    assert!(storage.events.iter().all(|e| e.active));

    // Stop specific tasks
    let report =
        handle_stop(&mut storage, vec!["task-1".to_string(), "task-3".to_string()], false).unwrap();
    assert_eq!(report.stopped, 2);
    assert!(report.save);
    assert_eq!(report.daemon, DaemonRequest::Restart);
    assert!(report.missing.is_empty());

    // Check that only task-2 is active
    assert!(!storage.events.iter().find(|e| e.slug == "task-1").unwrap().active);
    assert!(storage.events.iter().find(|e| e.slug == "task-2").unwrap().active);
    assert!(!storage.events.iter().find(|e| e.slug == "task-3").unwrap().active);

    // Start task-1 only
    let report = handle_start(&mut storage, vec!["task-1".to_string()], false).unwrap();
    assert_eq!(report.started, 1);
    assert!(!report.everything);
    assert!(report.save);

    // Check that task-1 and task-2 are active
    assert!(storage.events.iter().find(|e| e.slug == "task-1").unwrap().active);
    assert!(storage.events.iter().find(|e| e.slug == "task-2").unwrap().active);
    assert!(!storage.events.iter().find(|e| e.slug == "task-3").unwrap().active);

    // Start all tasks using --all flag
    let report = handle_start(&mut storage, vec![], true).unwrap();
    assert_eq!(report.started, 1);
    assert!(report.everything);
    assert!(report.save);

    // Check that all tasks are active
    assert!(storage.events.iter().all(|e| e.active));

    // Once more there is nothing to write
    let report = handle_start(&mut storage, vec![], false).unwrap();
    assert_eq!(report.started, 0);
    assert!(!report.save);
}

#[test]
fn test_start_stop_nonexistent_task() {
    let mut storage = Storage::new();

    // Add a task
    handle_add(
        &mut storage,
        "existing-task".to_string(),
        "0 * * * * *".to_string(),
        vec!["echo".to_string(), "hello".to_string()],
        now(),
    )
    .unwrap();

    // Try to stop a non-existent task along with existing one
    let report = handle_stop(
        &mut storage,
        vec!["existing-task".to_string(), "nonexistent".to_string()],
        false,
    )
    .unwrap();
    assert_eq!(report.stopped, 1);
    assert_eq!(report.missing, vec!["nonexistent".to_string()]);
    // No task is active any more: the daemon is to stop
    assert_eq!(report.daemon, DaemonRequest::Stop);

    // The existing task should be stopped
    assert!(!storage.events.iter().find(|e| e.slug == "existing-task").unwrap().active);

    // Try to start only non-existent tasks - should fail
    let result = handle_start(
        &mut storage,
        vec!["nonexistent1".to_string(), "nonexistent2".to_string()],
        false,
    );
    assert!(result.is_err());
    assert_eq!(result.unwrap_err().message(), "No valid tasks found to start");
    assert!(!storage.events[0].active);
}

#[test]
fn stop_of_unknown_slugs_is_refused() {
    let mut storage = Storage::new();
    storage.events.push(event("a", "0 * * * * *", "echo a"));
    let result = handle_stop(&mut storage, vec!["b".to_string()], false);
    assert_eq!(result.unwrap_err().message(), "No valid tasks found to stop");
    assert!(storage.events[0].active);
}

#[test]
fn stop_without_slugs_only_stops_the_daemon() {
    let mut storage = Storage::new();
    storage.events.push(event("a", "0 * * * * *", "echo a"));
    let report = handle_stop(&mut storage, vec![], true).unwrap();
    assert_eq!(report.stopped, 0);
    assert!(!report.save);
    assert_eq!(report.daemon, DaemonRequest::Stop);
    assert!(storage.events[0].active);
}

#[test]
fn a_slug_named_twice_counts_twice_and_sets_the_first_task() {
    let mut storage = Storage::new();
    storage.events.push(event("a", "0 * * * * *", "first"));
    storage.events.push(event("a", "0 * * * * *", "second"));
    let report =
        handle_stop(&mut storage, vec!["a".to_string(), "x".to_string(), "a".to_string()], false)
            .unwrap();
    assert_eq!(report.stopped, 2);
    assert_eq!(report.missing, vec!["x".to_string()]);
    assert!(!storage.events[0].active);
    assert!(storage.events[1].active);
    assert_eq!(report.daemon, DaemonRequest::Restart);
}

#[test]
fn listing_of_an_empty_registry() {
    let storage = Storage::new();
    assert_eq!(handle_list(&storage), vec!["No scheduled tasks".to_string()]);
}

#[test]
fn listing_has_a_heading_a_rule_and_a_line_for_each_task() {
    let mut storage = Storage::new();
    storage.events.push(event("short", "0 * * * * *", "echo hello"));
    let mut long = event("long", "*/5 * * * * *", "0123456789012345678901234567890123456789 tail");
    long.active = false;
    // 2023-11-14T22:13:20Z
    long.last_run = Some(now());
    storage.events.push(long);
    let lines = handle_list(&storage);
    assert_eq!(lines.len(), 4);
    assert_eq!(
        lines[0],
        format!(
            "{:<20} {:<20} {:<40} {:<10} {:<15}",
            "SLUG", "CRON", "COMMAND", "STATUS", "LAST RUN"
        )
    );
    assert_eq!(lines[1], "-".repeat(105));
    assert_eq!(
        lines[2],
        format!(
            "{:<20} {:<20} {:<40} {:<10} {:<15}",
            "short", "0 * * * * *", "echo hello", "Active", "Never"
        )
    );
    assert_eq!(
        lines[3],
        format!(
            "{:<20} {:<20} {:<40} {:<10} {:<15}",
            "long",
            "*/5 * * * * *",
            "0123456789012345678901234567890123456...",
            "Inactive",
            "2023-11-14 22:13"
        )
    );
}

#[test]
fn list_shows_a_command_of_37_bytes_whole_and_pads_by_characters() {
    let mut storage = Storage::new();
    let exact = "a".repeat(37);
    storage.events.push(event("a-very-long-slug-of-more-than-twenty", "0 * * * * *", &exact));
    storage.events.push(event("é", "0 * * * * *", "x"));
    let lines = handle_list(&storage);
    assert_eq!(
        lines[2],
        format!(
            "{:<20} {:<20} {:<40} {:<10} {:<15}",
            "a-very-long-slug-of-more-than-twenty", "0 * * * * *", exact, "Active", "Never"
        )
    );
    assert_eq!(
        lines[3],
        format!("{:<20} {:<20} {:<40} {:<10} {:<15}", "é", "0 * * * * *", "x", "Active", "Never")
    );
}

#[test]
fn register_takes_the_expression_of_the_rule() {
    let rule = Rule::parse("*/5 * * * * *").unwrap();
    let mut storage = Storage::new();
    register(&mut storage, "a".to_string(), &rule, words(&["echo", "a"]), now()).unwrap();
    assert_eq!(storage.events[0].cron, "*/5 * * * * *");
    assert_eq!(storage.events[0].command, "echo a");
    let again = register(&mut storage, "a".to_string(), &rule, words(&["echo"]), now());
    assert!(matches!(again, Err(CliError::DuplicateSlug(_))));
    let empty = register(&mut storage, "b".to_string(), &rule, words(&[]), now());
    assert!(matches!(empty, Err(CliError::EmptyCommand)));
    assert_eq!(storage.events.len(), 1);
}

#[test]
fn row_pads_each_column() {
    assert_eq!(
        row("a", "b", "c", "d", "e"),
        format!("{:<20} {:<20} {:<40} {:<10} {:<15}", "a", "b", "c", "d", "e")
    );
    assert_eq!(row("", "", "", "", "").len(), 20 + 1 + 20 + 1 + 40 + 1 + 10 + 1 + 15);
}

#[test]
fn listing_is_possible_unless_a_cut_would_split_a_character() {
    let mut storage = Storage::new();
    storage.events.push(event("a", "0 * * * * *", &"x".repeat(100)));
    storage.events.push(event("b", "0 * * * * *", &"é".repeat(18)));
    assert!(can_be_listed(&storage));
    // 36 bytes, then a character of two bytes, then more
    let split = format!("{}é-and-more", "x".repeat(36));
    storage.events.push(event("c", "0 * * * * *", &split));
    assert!(!can_be_listed(&storage));
}
