//! The registry commands: what each does to the registry and what it reports.

use vstd::prelude::*;
use vstd::string::StringExecFns;
use chrono::DateTime;
use chrono::Utc;
use crate::rule::parses;
use crate::rule::Rule;
use crate::rule::RuleError;
use crate::storage::Event;
use crate::storage::EventView;
use crate::storage::has_slug;
use crate::storage::lemma_views_push;
use crate::storage::Storage;
use crate::storage::unique_slugs;
use crate::text::can_shorten;
use crate::text::join;
use crate::text::joined;
use crate::text::lemma_texts_push;
use crate::text::padded;
use crate::text::push_padded;
use crate::text::push_repeated;
use crate::text::repeated;
use crate::text::same_text;
use crate::text::shorten;
use crate::text::shortened;
use crate::text::split_words;
use crate::text::texts;
use crate::text::words;
use crate::time::in_range;
use crate::time::NANOS_PER_SECOND;
use crate::time::Timestamp;

verus! {

/// The command line: one command.
#[derive(Debug)]
pub struct Cli {
    pub command: Commands,
}

/// The commands.
#[derive(Debug)]
pub enum Commands {
    /// Register a task.
    Add {
        /// The task's key.
        slug: String,
        /// The recurrence, a cron expression.
        cron: String,
        /// The command to run, word by word.
        command: Vec<String>,
    },
    /// Remove a task.
    Remove {
        /// The task's key.
        slug: String,
    },
    /// List the tasks.
    List,
    /// Start tasks and the daemon.
    Start {
        /// The tasks to start; every task where there is none.
        slugs: Vec<String>,
        /// Start every task.
        all: bool,
    },
    /// Stop tasks or the daemon.
    Stop {
        /// The tasks to stop; the daemon where there is none.
        slugs: Vec<String>,
        /// Stop the daemon.
        all: bool,
    },
    /// Open the interactive task list.
    Tui,
}

/// Why a command was refused.
#[derive(Debug)]
pub enum CliError {
    /// The recurrence is no cron expression.
    InvalidCron(RuleError),
    /// A task with this slug is registered already.
    DuplicateSlug(String),
    /// The command holds no word.
    EmptyCommand,
    /// No task has this slug.
    NotFound(String),
    /// None of the slugs to start names a task.
    NothingToStart,
    /// None of the slugs to stop names a task.
    NothingToStop,
}

impl CliError {
    /// The text shown to the user.
    pub fn message(&self) -> (text: String)
        ensures
            text@ == match *self {
                CliError::InvalidCron(reason) => "Invalid cron expression: "@ + reason.detail@,
                CliError::DuplicateSlug(slug) => "Task with slug '"@ + slug@
                    + "' already exists"@,
                CliError::EmptyCommand => "Empty command"@,
                CliError::NotFound(slug) => "Task with slug '"@ + slug@ + "' not found"@,
                CliError::NothingToStart => "No valid tasks found to start"@,
                CliError::NothingToStop => "No valid tasks found to stop"@,
            },
    {
        match self {
            CliError::InvalidCron(reason) => reason.message(),
            CliError::DuplicateSlug(slug) => {
                let mut text = "Task with slug '".to_owned();
                text.append(slug.as_str());
                text.append("' already exists");
                text
            },
            CliError::NotFound(slug) => {
                let mut text = "Task with slug '".to_owned();
                text.append(slug.as_str());
                text.append("' not found");
                text
            },
            CliError::EmptyCommand => "Empty command".to_owned(),
            CliError::NothingToStart => "No valid tasks found to start".to_owned(),
            CliError::NothingToStop => "No valid tasks found to stop".to_owned(),
        }
    }
}

/// The record of a task registered at `now`: active, never run, its command the
/// words of `command` with one space between them.
pub open spec fn registered(
    slug: Seq<char>,
    cron: Seq<char>,
    command: Seq<Seq<char>>,
    now: int,
) -> EventView {
    EventView {
        slug,
        cron,
        command: joined(command, " "@),
        pid: None,
        created_at: now,
        last_run: None,
        active: true,
    }
}

/// Registers a task whose recurrence has parsed. The slug must be new and the
/// command must hold a word, so that it can be run; otherwise the registry
/// stays as it is.
pub fn register(
    storage: &mut Storage,
    slug: String,
    rule: &Rule,
    command: Vec<String>,
    now: Timestamp,
) -> (r: Result<(), CliError>)
    ensures
        match r {
            Ok(_) => {
                &&& !has_slug(old(storage)@, slug@)
                &&& words(joined(texts(command@), " "@)).len() > 0
                &&& final(storage)@ == old(storage)@.push(
                    registered(slug@, rule@, texts(command@), now@),
                )
            },
            Err(CliError::DuplicateSlug(taken)) => {
                &&& has_slug(old(storage)@, slug@)
                &&& taken@ == slug@
                &&& *final(storage) == *old(storage)
            },
            Err(CliError::EmptyCommand) => {
                &&& !has_slug(old(storage)@, slug@)
                &&& words(joined(texts(command@), " "@)).len() == 0
                &&& *final(storage) == *old(storage)
            },
            Err(_) => false,
        },
        old(storage).wf() ==> final(storage).wf(),
{
    if storage.position(slug.as_str()).is_some() {
        return Err(CliError::DuplicateSlug(slug));
    }
    let line = join(&command, " ");
    if split_words(line.as_str()).len() == 0 {
        return Err(CliError::EmptyCommand);
    }
    let event = Event {
        slug,
        cron: rule.expression().to_owned(),
        command: line,
        pid: None,
        created_at: now,
        last_run: None,
        active: true,
    };
    proof {
        lemma_views_push(storage.events@, event);
        lemma_unique_push(storage@, event@);
    }
    storage.events.push(event);
    Ok(())
}

/// Registers a task. The recurrence must parse, the slug must be new and the
/// command must hold a word; otherwise the registry stays as it is. A
/// recurrence that does not parse is reported before anything else.
pub fn handle_add(
    storage: &mut Storage,
    slug: String,
    cron_expr: String,
    command: Vec<String>,
    now: Timestamp,
) -> (r: Result<(), CliError>)
    ensures
        match r {
            Ok(_) => {
                &&& parses(cron_expr@)
                &&& !has_slug(old(storage)@, slug@)
                &&& words(joined(texts(command@), " "@)).len() > 0
                &&& final(storage)@ == old(storage)@.push(
                    registered(slug@, cron_expr@, texts(command@), now@),
                )
            },
            Err(CliError::InvalidCron(_)) => !parses(cron_expr@) && *final(storage) == *old(
                storage,
            ),
            Err(CliError::DuplicateSlug(taken)) => {
                &&& parses(cron_expr@)
                &&& has_slug(old(storage)@, slug@)
                &&& taken@ == slug@
                &&& *final(storage) == *old(storage)
            },
            Err(CliError::EmptyCommand) => {
                &&& parses(cron_expr@)
                &&& !has_slug(old(storage)@, slug@)
                &&& words(joined(texts(command@), " "@)).len() == 0
                &&& *final(storage) == *old(storage)
            },
            Err(_) => false,
        },
        old(storage).wf() ==> final(storage).wf(),
{
    match Rule::parse(cron_expr.as_str()) {
        Ok(rule) => register(storage, slug, &rule, command, now),
        Err(reason) => Err(CliError::InvalidCron(reason)),
    }
}

/// The test that keeps every record whose slug is not `slug`.
pub open spec fn other_than(slug: Seq<char>) -> spec_fn(EventView) -> bool {
    |event: EventView| event.slug != slug
}

/// Removes every task with the slug `slug`. Where there is none, the registry
/// stays as it is and the slug is reported as not found.
pub fn handle_remove(storage: &mut Storage, slug: String) -> (r: Result<(), CliError>)
    ensures
        final(storage)@ == old(storage)@.filter(other_than(slug@)),
        match r {
            Ok(_) => has_slug(old(storage)@, slug@),
            Err(CliError::NotFound(missing)) => {
                &&& !has_slug(old(storage)@, slug@)
                &&& missing@ == slug@
                &&& final(storage)@ == old(storage)@
            },
            Err(_) => false,
        },
        old(storage).wf() ==> final(storage).wf(),
{
    let ghost before = storage@;
    let ghost keep = other_than(slug@);
    let ghost mut seen: int = 0;
    let mut removed = false;
    let mut i: usize = 0;
    proof {
        reveal(Seq::filter);
        assert(before.take(0).filter(keep) =~= storage@.take(0));
        assert(storage@.skip(0) =~= before.skip(0));
    }
    while i < storage.events.len()
        invariant
            keep == other_than(slug@),
            0 <= i <= seen <= before.len(),
            i <= storage.events.len(),
            storage@.take(i as int) == before.take(seen).filter(keep),
            storage@.skip(i as int) == before.skip(seen),
            removed == has_slug(before.take(seen), slug@),
            !removed ==> i == seen,
        decreases storage.events.len() - i,
    {
        let ghost current = storage@;
        proof {
            reveal(Seq::filter);
            assert(current.skip(i as int).len() == current.len() - i);
            assert(before.skip(seen).len() == before.len() - seen);
            assert(current[i as int] == current.skip(i as int)[0]);
            assert(before[seen] == before.skip(seen)[0]);
            assert(before.take(seen + 1).drop_last() =~= before.take(seen));
            assert(before.take(seen + 1).last() == before[seen]);
            lemma_has_slug_step(before, seen, slug@);
        }
        if same_text(storage.events[i].slug.as_str(), slug.as_str()) {
            storage.events.remove(i);
            removed = true;
            proof {
                assert(storage@ =~= current.remove(i as int));
                assert(storage@.take(i as int) =~= current.take(i as int));
                assert(storage@.skip(i as int) =~= current.skip(i as int).skip(1));
                assert(before.skip(seen).skip(1) =~= before.skip(seen + 1));
                seen = seen + 1;
            }
        } else {
            proof {
                assert(current.take(i + 1) =~= current.take(i as int).push(current[i as int]));
                assert(current.skip(i + 1) =~= current.skip(i as int).skip(1));
                assert(before.skip(seen).skip(1) =~= before.skip(seen + 1));
                seen = seen + 1;
            }
            i += 1;
        }
    }
    proof {
        assert(storage@.take(i as int) =~= storage@);
        assert(storage@.skip(i as int).len() == 0);
        assert(before.skip(seen).len() == before.len() - seen);
        assert(before.take(seen) =~= before);
        lemma_filter_keeps_unique(before, keep);
        if !removed {
            assert(storage@ =~= before) by {
                assert(storage@.len() == before.len());
                assert(storage@.skip(0) =~= storage@);
                lemma_filter_none_removed(before, slug@);
            }
        }
    }
    if removed {
        Ok(())
    } else {
        Err(CliError::NotFound(slug))
    }
}

/// A slug occurs among the first `upto + 1` records when it occurs among the
/// first `upto` or is that of the next.
proof fn lemma_has_slug_step(events: Seq<EventView>, upto: int, slug: Seq<char>)
    requires
        0 <= upto < events.len(),
    ensures
        has_slug(events.take(upto + 1), slug) == (has_slug(events.take(upto), slug)
            || events[upto].slug == slug),
{
    let shorter = events.take(upto);
    let longer = events.take(upto + 1);
    if has_slug(shorter, slug) {
        let i = choose|i: int| 0 <= i < shorter.len() && #[trigger] shorter[i].slug == slug;
        assert(longer[i].slug == slug);
    }
    if events[upto].slug == slug {
        assert(longer[upto].slug == slug);
    }
    if has_slug(longer, slug) {
        let i = choose|i: int| 0 <= i < longer.len() && #[trigger] longer[i].slug == slug;
        if i < upto {
            assert(shorter[i].slug == slug);
        }
    }
}

/// Where no record has the slug, removing it removes nothing.
proof fn lemma_filter_none_removed(events: Seq<EventView>, slug: Seq<char>)
    requires
        !has_slug(events, slug),
    ensures
        events.filter(other_than(slug)) == events,
    decreases events.len(),
{
    reveal(Seq::filter);
    if events.len() > 0 {
        let shorter = events.drop_last();
        assert forall|i: int| 0 <= i < shorter.len() implies #[trigger] shorter[i].slug
            != slug by {
            assert(events[i].slug != slug);
        }
        lemma_filter_none_removed(shorter, slug);
        assert(events.last().slug != slug);
        assert(shorter.push(events.last()) =~= events);
    }
}

/// Removing the slug of a task that was just added, with a slug that was new,
/// gives back the registry as it was before.
pub proof fn lemma_remove_undoes_add(events: Seq<EventView>, added: EventView)
    requires
        !has_slug(events, added.slug),
    ensures
        events.push(added).filter(other_than(added.slug)) == events,
{
    reveal(Seq::filter);
    lemma_filter_none_removed(events, added.slug);
    assert(events.push(added).drop_last() =~= events);
}

/// After a slug was removed no task has it.
pub proof fn lemma_removed_slug_is_gone(events: Seq<EventView>, slug: Seq<char>)
    ensures
        !has_slug(events.filter(other_than(slug)), slug),
{
    let left = events.filter(other_than(slug));
    if has_slug(left, slug) {
        let at = choose|at: int| 0 <= at < left.len() && #[trigger] left[at].slug == slug;
        events.lemma_filter_pred(other_than(slug), at);
    }
}

/// Leaving records out keeps slugs unique.
proof fn lemma_filter_keeps_unique(events: Seq<EventView>, keep: spec_fn(EventView) -> bool)
    ensures
        unique_slugs(events) ==> unique_slugs(events.filter(keep)),
    decreases events.len(),
{
    reveal(Seq::filter);
    if unique_slugs(events) && events.len() > 0 {
        let shorter = events.drop_last();
        assert forall|i: int, j: int| 0 <= i < j < shorter.len() implies #[trigger] shorter[i].slug
            != #[trigger] shorter[j].slug by {
            assert(events[i].slug != events[j].slug);
        }
        lemma_filter_keeps_unique(shorter, keep);
        let kept = shorter.filter(keep);
        if keep(events.last()) {
            let longer = kept.push(events.last());
            assert forall|i: int, j: int| 0 <= i < j < longer.len() implies #[trigger] longer[i].slug
                != #[trigger] longer[j].slug by {
                if j < kept.len() {
                    assert(kept[i].slug != kept[j].slug);
                } else {
                    shorter.lemma_filter_contains_rev(keep, kept[i]);
                    let k = choose|k: int| 0 <= k < shorter.len() && shorter[k] == kept[i];
                    assert(events[k].slug != events[events.len() - 1].slug);
                }
            }
        }
    }
}

/// Whether the record at `at` is the first with its slug and `slugs` names it.
pub open spec fn selected(events: Seq<EventView>, slugs: Seq<Seq<char>>, at: int) -> bool {
    slugs.contains(events[at].slug) && !has_slug(events.take(at), events[at].slug)
}

/// `event` with its `active` flag set to `active`.
pub open spec fn with_flag(event: EventView, active: bool) -> EventView {
    EventView { active, ..event }
}

/// `events` after each selected record got the flag `active`.
pub open spec fn with_active(events: Seq<EventView>, slugs: Seq<Seq<char>>, active: bool) -> Seq<
    EventView,
> {
    Seq::new(
        events.len(),
        |at: int|
            if selected(events, slugs, at) {
                with_flag(events[at], active)
            } else {
                events[at]
            },
    )
}

/// The test for a slug that some record of `events` has.
pub open spec fn named_in(events: Seq<EventView>) -> spec_fn(Seq<char>) -> bool {
    |slug: Seq<char>| has_slug(events, slug)
}

/// The test for a slug that no record of `events` has.
pub open spec fn unnamed_in(events: Seq<EventView>) -> spec_fn(Seq<char>) -> bool {
    |slug: Seq<char>| !has_slug(events, slug)
}

/// Sets the flag of the first task of each slug in `slugs`. Returns how many of
/// the slugs name a task, and those that name none.
fn set_active(storage: &mut Storage, slugs: &Vec<String>, active: bool) -> (r: (
    usize,
    Vec<String>,
))
    ensures
        final(storage)@ == with_active(old(storage)@, texts(slugs@), active),
        r.0 == texts(slugs@).filter(named_in(old(storage)@)).len(),
        texts(r.1@) == texts(slugs@).filter(unnamed_in(old(storage)@)),
{
    let ghost before = storage@;
    let ghost names = texts(slugs@);
    let mut found: usize = 0;
    let mut missing: Vec<String> = Vec::new();
    let mut k: usize = 0;
    proof {
        reveal(Seq::filter);
        assert(storage@ =~= with_active(before, names.take(0), active));
        assert(texts(missing@) =~= names.take(0).filter(unnamed_in(before)));
    }
    while k < slugs.len()
        invariant
            k <= slugs.len(),
            names == texts(slugs@),
            before.len() == storage.events.len(),
            storage@ == with_active(before, names.take(k as int), active),
            found == names.take(k as int).filter(named_in(before)).len(),
            found <= k,
            texts(missing@) == names.take(k as int).filter(unnamed_in(before)),
        decreases slugs.len() - k,
    {
        let ghost current = storage@;
        let ghost name = slugs@[k as int]@;
        proof {
            reveal(Seq::filter);
            assert(names[k as int] == name);
            assert(names.take(k + 1).drop_last() =~= names.take(k as int));
            assert(names.take(k + 1).last() == name);
            lemma_same_slugs(before, names.take(k as int), active, name);
        }
        match storage.position(slugs[k].as_str()) {
            Some(at) => {
                storage.events[at].active = active;
                found += 1;
                proof {
                    assert(storage@ =~= current.update(
                        at as int,
                        with_flag(current[at as int], active),
                    ));
                    assert(names.take(k + 1) =~= names.take(k as int).push(name));
                    lemma_select_one(before, names.take(k as int), active, name, at as int);
                    assert(storage@ =~= with_active(before, names.take(k + 1), active));
                }
            },
            None => {
                let copy = slugs[k].clone();
                proof {
                    lemma_texts_push(missing@, copy);
                    assert(names.take(k + 1) =~= names.take(k as int).push(name));
                    lemma_select_none(before, names.take(k as int), active, name);
                }
                missing.push(copy);
            },
        }
        k += 1;
    }
    proof {
        assert(names.take(k as int) =~= names);
    }
    (found, missing)
}

/// What a start command did and what remains to do.
#[derive(Debug)]
pub struct StartReport {
    /// How many of the named slugs have a task or, where none was named, how
    /// many tasks were inactive.
    pub started: usize,
    /// Whether no slug was named, so that every task was started.
    pub everything: bool,
    /// Whether the registry changed and is to be written.
    pub save: bool,
    /// The named slugs that have no task.
    pub missing: Vec<String>,
}

/// What is asked of the daemon after a stop command.
#[derive(Clone, Copy, Debug, PartialEq, Eq, Structural)]
pub enum DaemonRequest {
    /// Some task is still active: run the daemon anew.
    Restart,
    /// Stop the daemon.
    Stop,
}

/// What a stop command did and what remains to do.
#[derive(Debug)]
pub struct StopReport {
    /// How many of the named slugs have a task.
    pub stopped: usize,
    /// Whether the registry changed and is to be written.
    pub save: bool,
    /// What to ask of the daemon.
    pub daemon: DaemonRequest,
    /// The named slugs that have no task.
    pub missing: Vec<String>,
}

/// The test for an inactive record.
pub open spec fn is_inactive() -> spec_fn(EventView) -> bool {
    |event: EventView| !event.active
}

/// `events` with every record active.
pub open spec fn all_active(events: Seq<EventView>) -> Seq<EventView> {
    Seq::new(events.len(), |at: int| with_flag(events[at], true))
}

/// Whether some record of `events` is active.
pub open spec fn any_active(events: Seq<EventView>) -> bool {
    exists|at: int| 0 <= at < events.len() && #[trigger] events[at].active
}

/// Makes every task active and returns how many were not.
fn activate_all(storage: &mut Storage) -> (count: usize)
    ensures
        final(storage)@ == all_active(old(storage)@),
        count == old(storage)@.filter(is_inactive()).len(),
{
    let ghost before = storage@;
    let mut count: usize = 0;
    let mut i: usize = 0;
    proof {
        reveal(Seq::filter);
    }
    while i < storage.events.len()
        invariant
            i <= storage.events.len(),
            storage@.len() == before.len(),
            storage@.take(i as int) == all_active(before).take(i as int),
            storage@.skip(i as int) == before.skip(i as int),
            count == before.take(i as int).filter(is_inactive()).len(),
            count <= i,
        decreases storage.events.len() - i,
    {
        let ghost current = storage@;
        proof {
            reveal(Seq::filter);
            assert(current[i as int] == current.skip(i as int)[0]);
            assert(before[i as int] == before.skip(i as int)[0]);
            assert(before.take(i + 1).drop_last() =~= before.take(i as int));
            assert(before.take(i + 1).last() == before[i as int]);
        }
        if !storage.events[i].active {
            count += 1;
        }
        storage.events[i].active = true;
        proof {
            assert(storage@ =~= current.update(i as int, with_flag(current[i as int], true)));
            assert(storage@.take(i + 1) =~= current.take(i as int).push(
                with_flag(before[i as int], true),
            ));
            assert(all_active(before).take(i + 1) =~= all_active(before).take(i as int).push(
                with_flag(before[i as int], true),
            ));
            assert(storage@.skip(i + 1) =~= current.skip(i as int).skip(1));
            assert(before.skip(i + 1) =~= before.skip(i as int).skip(1));
        }
        i += 1;
    }
    proof {
        assert(storage@.take(i as int) =~= storage@);
        assert(all_active(before).take(i as int) =~= all_active(before));
        assert(before.take(i as int) =~= before);
    }
    count
}

/// Whether some task is active.
fn some_active(storage: &Storage) -> (r: bool)
    ensures
        r == any_active(storage@),
{
    let mut i: usize = 0;
    while i < storage.events.len()
        invariant
            i <= storage.events.len(),
            forall|at: int| 0 <= at < i ==> !(#[trigger] storage@[at]).active,
        decreases storage.events.len() - i,
    {
        if storage.events[i].active {
            assert(storage@[i as int].active);
            return true;
        }
        i += 1;
    }
    false
}

/// Starts the tasks that `slugs` names, or every task where it names none.
/// Naming only slugs without a task is refused, and the registry stays as it is.
/// After a start that was not refused the daemon is to be started.
pub fn handle_start(storage: &mut Storage, slugs: Vec<String>, all: bool) -> (r: Result<
    StartReport,
    CliError,
>)
    ensures
        slugs@.len() > 0 ==> {
            let known = texts(slugs@).filter(named_in(old(storage)@));
            &&& final(storage)@ == with_active(old(storage)@, texts(slugs@), true)
            &&& match r {
                Ok(report) => {
                    &&& known.len() > 0
                    &&& report.started == known.len()
                    &&& !report.everything
                    &&& report.save
                    &&& texts(report.missing@) == texts(slugs@).filter(
                        unnamed_in(old(storage)@),
                    )
                },
                Err(CliError::NothingToStart) => known.len() == 0 && final(storage)@ == old(
                    storage,
                )@,
                Err(_) => false,
            }
        },
        slugs@.len() == 0 ==> {
            let idle = old(storage)@.filter(is_inactive());
            &&& final(storage)@ == all_active(old(storage)@)
            &&& r matches Ok(report)
            &&& report.started == idle.len()
            &&& report.everything
            &&& report.save == (idle.len() > 0)
            &&& report.missing@.len() == 0
        },
        old(storage).wf() ==> final(storage).wf(),
{
    proof {
        lemma_flags_keep_unique(storage@, with_active(storage@, texts(slugs@), true));
        lemma_flags_keep_unique(storage@, all_active(storage@));
    }
    if slugs.len() > 0 {
        let ghost before = storage@;
        let (found, missing) = set_active(storage, &slugs, true);
        if found == 0 {
            proof {
                lemma_none_named(before, texts(slugs@), true);
            }
            return Err(CliError::NothingToStart);
        }
        Ok(StartReport { started: found, everything: false, save: true, missing })
    } else {
        let count = activate_all(storage);
        Ok(StartReport { started: count, everything: true, save: count > 0, missing: Vec::new() })
    }
}

/// Stops the tasks that `slugs` names; where it names none, only the daemon is
/// stopped. Naming only slugs without a task is refused, and the registry
/// stays as it is. After stopping tasks the daemon runs on while a task is
/// still active.
pub fn handle_stop(storage: &mut Storage, slugs: Vec<String>, all: bool) -> (r: Result<
    StopReport,
    CliError,
>)
    ensures
        slugs@.len() > 0 ==> {
            let known = texts(slugs@).filter(named_in(old(storage)@));
            &&& final(storage)@ == with_active(old(storage)@, texts(slugs@), false)
            &&& match r {
                Ok(report) => {
                    &&& known.len() > 0
                    &&& report.stopped == known.len()
                    &&& report.save
                    &&& report.daemon == (if any_active(final(storage)@) {
                        DaemonRequest::Restart
                    } else {
                        DaemonRequest::Stop
                    })
                    &&& texts(report.missing@) == texts(slugs@).filter(
                        unnamed_in(old(storage)@),
                    )
                },
                Err(CliError::NothingToStop) => known.len() == 0 && final(storage)@ == old(
                    storage,
                )@,
                Err(_) => false,
            }
        },
        slugs@.len() == 0 ==> {
            &&& *final(storage) == *old(storage)
            &&& r matches Ok(report)
            &&& report.stopped == 0
            &&& !report.save
            &&& report.daemon == DaemonRequest::Stop
            &&& report.missing@.len() == 0
        },
        old(storage).wf() ==> final(storage).wf(),
{
    proof {
        lemma_flags_keep_unique(storage@, with_active(storage@, texts(slugs@), false));
    }
    if slugs.len() > 0 {
        let ghost before = storage@;
        let (found, missing) = set_active(storage, &slugs, false);
        if found == 0 {
            proof {
                lemma_none_named(before, texts(slugs@), false);
            }
            return Err(CliError::NothingToStop);
        }
        let daemon = if some_active(storage) {
            DaemonRequest::Restart
        } else {
            DaemonRequest::Stop
        };
        Ok(StopReport { stopped: found, save: true, daemon, missing })
    } else {
        Ok(StopReport { stopped: 0, save: false, daemon: DaemonRequest::Stop, missing: Vec::new() })
    }
}

/// A registry that differs from one with unique slugs in no slug has unique
/// slugs too.
proof fn lemma_flags_keep_unique(before: Seq<EventView>, after: Seq<EventView>)
    requires
        before.len() == after.len(),
        forall|at: int| 0 <= at < before.len() ==> (#[trigger] after[at]).slug == before[at].slug,
    ensures
        unique_slugs(before) ==> unique_slugs(after),
{
    if unique_slugs(before) {
        assert forall|i: int, j: int| 0 <= i < j < after.len() implies #[trigger] after[i].slug
            != #[trigger] after[j].slug by {
            assert(before[i].slug != before[j].slug);
        }
    }
}

/// Where no slug of `slugs` names a record, setting flags changes nothing.
proof fn lemma_none_named(events: Seq<EventView>, slugs: Seq<Seq<char>>, active: bool)
    requires
        slugs.filter(named_in(events)).len() == 0,
    ensures
        with_active(events, slugs, active) == events,
{
    let flagged = with_active(events, slugs, active);
    assert forall|at: int| 0 <= at < events.len() implies flagged[at] == events[at] by {
        let own = events[at].slug;
        if slugs.contains(own) {
            let k = choose|k: int| 0 <= k < slugs.len() && slugs[k] == own;
            assert(has_slug(events, own));
            assert(named_in(events)(slugs[k]));
            slugs.lemma_filter_contains(named_in(events), k);
        }
    }
    assert(flagged =~= events);
}

/// Setting flags changes no slug.
proof fn lemma_same_slugs(
    events: Seq<EventView>,
    slugs: Seq<Seq<char>>,
    active: bool,
    slug: Seq<char>,
)
    ensures
        has_slug(with_active(events, slugs, active), slug) == has_slug(events, slug),
        forall|at: int|
            0 <= at <= events.len() ==> has_slug(
                #[trigger] with_active(events, slugs, active).take(at),
                slug,
            ) == has_slug(events.take(at), slug),
{
    let flagged = with_active(events, slugs, active);
    assert forall|at: int| 0 <= at <= events.len() implies has_slug(
        #[trigger] flagged.take(at),
        slug,
    ) == has_slug(events.take(at), slug) by {
        let a = flagged.take(at);
        let b = events.take(at);
        if has_slug(a, slug) {
            let i = choose|i: int| 0 <= i < a.len() && #[trigger] a[i].slug == slug;
            assert(b[i].slug == slug);
        }
        if has_slug(b, slug) {
            let i = choose|i: int| 0 <= i < b.len() && #[trigger] b[i].slug == slug;
            assert(a[i].slug == slug);
        }
    }
    assert(flagged.take(events.len() as int) =~= flagged);
    assert(events.take(events.len() as int) =~= events);
}

/// Naming one more slug, whose first record is at `at`, sets that record's flag
/// and no other.
proof fn lemma_select_one(
    events: Seq<EventView>,
    slugs: Seq<Seq<char>>,
    active: bool,
    slug: Seq<char>,
    at: int,
)
    requires
        0 <= at < events.len(),
        events[at].slug == slug,
        !has_slug(events.take(at), slug),
    ensures
        with_active(events, slugs.push(slug), active) == with_active(events, slugs, active).update(
            at,
            with_flag(with_active(events, slugs, active)[at], active),
        ),
{
    let longer = slugs.push(slug);
    let a = with_active(events, longer, active);
    let b = with_active(events, slugs, active);
    let c = b.update(at, with_flag(b[at], active));
    assert forall|i: int| 0 <= i < events.len() implies a[i] == c[i] by {
        let own = events[i].slug;
        if slugs.contains(own) {
            let k = choose|k: int| 0 <= k < slugs.len() && slugs[k] == own;
            assert(longer[k] == own);
        }
        if longer.contains(own) {
            let k = choose|k: int| 0 <= k < longer.len() && longer[k] == own;
            if k < slugs.len() {
                assert(slugs[k] == own);
            }
        }
        assert(longer[slugs.len() as int] == slug);
        if i != at && own == slug {
            if i < at {
                assert(events.take(at)[i].slug == slug);
            } else {
                assert(events.take(i)[at].slug == slug);
            }
        }
    }
    assert(a =~= c);
}

/// Naming one more slug that no record has changes nothing.
proof fn lemma_select_none(
    events: Seq<EventView>,
    slugs: Seq<Seq<char>>,
    active: bool,
    slug: Seq<char>,
)
    requires
        !has_slug(events, slug),
    ensures
        with_active(events, slugs.push(slug), active) == with_active(events, slugs, active),
{
    let longer = slugs.push(slug);
    let a = with_active(events, longer, active);
    let b = with_active(events, slugs, active);
    assert forall|i: int| 0 <= i < events.len() implies a[i] == b[i] by {
        let own = events[i].slug;
        assert(own != slug);
        if slugs.contains(own) {
            let k = choose|k: int| 0 <= k < slugs.len() && slugs[k] == own;
            assert(longer[k] == own);
        }
        if longer.contains(own) {
            let k = choose|k: int| 0 <= k < longer.len() && longer[k] == own;
            assert(slugs[k] == own);
        }
    }
    assert(a =~= b);
}

/// The day and the minute in UTC of the instant `secs` seconds after the
/// epoch, as chrono writes them for the format `%Y-%m-%d %H:%M`.
pub uninterp spec fn calendar_minute(secs: i64) -> Seq<char>;

/// Formats the instant `secs` seconds after the epoch with chrono's
/// `DateTime::format`, to the minute.
#[verifier::external_body]
fn format_minute(secs: i64) -> (text: String)
    requires
        in_range(secs as int, 0),
    ensures
        text@ == calendar_minute(secs),
{
    match DateTime::<Utc>::from_timestamp(secs, 0) {
        Some(moment) => moment.format("%Y-%m-%d %H:%M").to_string(),
        None => String::new(),
    }
}

/// The bytes of a command that a listing shows before it cuts.
pub const COMMAND_BYTES_SHOWN: usize = 37;

/// The last run as a listing shows it.
pub open spec fn last_run_shown(last_run: Option<int>) -> Seq<char> {
    match last_run {
        Some(at) => calendar_minute((at / (NANOS_PER_SECOND as int)) as i64),
        None => "Never"@,
    }
}

/// The line of five columns, each but the last followed by a space.
pub open spec fn columns(
    slug: Seq<char>,
    cron: Seq<char>,
    command: Seq<char>,
    status: Seq<char>,
    last_run: Seq<char>,
) -> Seq<char> {
    padded(slug, 20) + " "@ + padded(cron, 20) + " "@ + padded(command, 40) + " "@ + padded(
        status,
        10,
    ) + " "@ + padded(last_run, 15)
}

/// The line that a listing shows for a task.
pub open spec fn line_of(event: EventView) -> Seq<char> {
    columns(
        event.slug,
        event.cron,
        shortened(event.command, COMMAND_BYTES_SHOWN as int, COMMAND_BYTES_SHOWN as int),
        if event.active {
            "Active"@
        } else {
            "Inactive"@
        },
        last_run_shown(event.last_run),
    )
}

/// The lines of a listing: one that says so where there is no task, else the
/// heading, a rule of 105 dashes and a line for each task.
pub open spec fn listing(events: Seq<EventView>) -> Seq<Seq<char>> {
    if events.len() == 0 {
        seq!["No scheduled tasks"@]
    } else {
        seq![columns("SLUG"@, "CRON"@, "COMMAND"@, "STATUS"@, "LAST RUN"@), repeated('-', 105)]
            + events.map_values(|event: EventView| line_of(event))
    }
}

/// Whether every command of `events` can be cut where a listing cuts it.
pub open spec fn can_list(events: Seq<EventView>) -> bool {
    forall|at: int|
        0 <= at < events.len() ==> can_shorten(
            (#[trigger] events[at]).command,
            COMMAND_BYTES_SHOWN as int,
            COMMAND_BYTES_SHOWN as int,
        )
}

/// Whether every command of the registry can be cut where a listing cuts it.
pub fn can_be_listed(storage: &Storage) -> (ok: bool)
    ensures
        ok == can_list(storage@),
{
    let mut i: usize = 0;
    while i < storage.events.len()
        invariant
            i <= storage.events.len(),
            forall|at: int|
                0 <= at < i ==> can_shorten(
                    (#[trigger] storage@[at]).command,
                    COMMAND_BYTES_SHOWN as int,
                    COMMAND_BYTES_SHOWN as int,
                ),
        decreases storage.events.len() - i,
    {
        let command = storage.events[i].command.as_str();
        assert(storage@[i as int].command == command@);
        if command.as_bytes().len() > COMMAND_BYTES_SHOWN && !command.is_char_boundary(
            COMMAND_BYTES_SHOWN,
        ) {
            return false;
        }
        i += 1;
    }
    true
}

/// Puts five columns into one line of a listing.
pub fn row(slug: &str, cron: &str, command: &str, status: &str, last_run: &str) -> (text: String)
    ensures
        text@ == columns(slug@, cron@, command@, status@, last_run@),
{
    let mut text = String::new();
    push_padded(&mut text, slug, 20);
    text.append(" ");
    push_padded(&mut text, cron, 20);
    text.append(" ");
    push_padded(&mut text, command, 40);
    text.append(" ");
    push_padded(&mut text, status, 10);
    text.append(" ");
    push_padded(&mut text, last_run, 15);
    proof {
        assert(text@ =~= columns(slug@, cron@, command@, status@, last_run@));
    }
    text
}

/// The lines that list the registry. A command longer than 37 bytes is shown
/// cut; it must be possible to cut it there.
pub fn handle_list(storage: &Storage) -> (lines: Vec<String>)
    requires
        can_list(storage@),
    ensures
        texts(lines@) == listing(storage@),
{
    let mut lines: Vec<String> = Vec::new();
    if storage.events.len() == 0 {
        let only = "No scheduled tasks".to_owned();
        lines.push(only);
        proof {
            assert(texts(lines@) =~= listing(storage@));
        }
        return lines;
    }
    lines.push(row("SLUG", "CRON", "COMMAND", "STATUS", "LAST RUN"));
    let mut rule = String::new();
    push_repeated(&mut rule, '-', 105);
    proof {
        assert(rule@ =~= repeated('-', 105));
    }
    lines.push(rule);
    let ghost head = texts(lines@);
    let ghost rows = storage@.map_values(|event: EventView| line_of(event));
    let mut i: usize = 0;
    proof {
        assert(head =~= seq![
            columns("SLUG"@, "CRON"@, "COMMAND"@, "STATUS"@, "LAST RUN"@),
            repeated('-', 105),
        ]);
        assert(texts(lines@) =~= head + rows.take(0));
    }
    while i < storage.events.len()
        invariant
            i <= storage.events.len(),
            can_list(storage@),
            rows == storage@.map_values(|event: EventView| line_of(event)),
            texts(lines@) == head + rows.take(i as int),
        decreases storage.events.len() - i,
    {
        let event = &storage.events[i];
        assert(storage@[i as int] == event@);
        let command = shorten(event.command.as_str(), COMMAND_BYTES_SHOWN, COMMAND_BYTES_SHOWN);
        let last_run = match &event.last_run {
            Some(at) => {
                let secs = at.seconds();
                assert(at@ / (NANOS_PER_SECOND as int) == secs);
                format_minute(secs)
            },
            None => "Never".to_owned(),
        };
        let status = if event.active {
            "Active"
        } else {
            "Inactive"
        };
        let text = row(
            event.slug.as_str(),
            event.cron.as_str(),
            command.as_str(),
            status,
            last_run.as_str(),
        );
        proof {
            lemma_texts_push(lines@, text);
            assert(text@ == rows[i as int]);
            assert(head + rows.take(i + 1) =~= (head + rows.take(i as int)).push(rows[i as int]));
        }
        lines.push(text);
        i += 1;
    }
    proof {
        assert(rows.take(i as int) =~= rows);
    }
    lines
}

/// A record with a new slug keeps slugs unique.
pub proof fn lemma_unique_push(events: Seq<EventView>, event: EventView)
    requires
        !has_slug(events, event.slug),
    ensures
        unique_slugs(events) ==> unique_slugs(events.push(event)),
{
    if unique_slugs(events) {
        let longer = events.push(event);
        assert forall|i: int, j: int| 0 <= i < j < longer.len() implies #[trigger] longer[i].slug
            != #[trigger] longer[j].slug by {
            if j < events.len() {
                assert(events[i].slug != events[j].slug);
            } else {
                assert(events[i].slug != event.slug);
            }
        }
    }
}

} // verus!
